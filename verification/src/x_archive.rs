//! X account archives: tweets, likes and direct messages.
use vstd::prelude::*;

use crate::cards::ascii_space;
use crate::facebook::{said, string_of_atom, text_response};
use crate::merge::filled;
use crate::pairs::lookup;
use crate::paths::{join_path, joined, opt_view};
use crate::records::{
    atom_to_timestamp, empty_conversation, plain_item, response_views, says, stamp_of,
    Conversation, ConversationItem, ConversationView, ItemView, ResponseItem, ResponseItemView,
    Stamp,
};
use crate::schema::{atoms, copied_atom, lemma_atom, opt_atom, ref_atom, Atom, ExtraMap, JsonAtom};
use crate::telegram::{opt_id, own_text, stringify_id};
use crate::text::{cat, contains_char};
use crate::Error;

verus! {

/// Older name of the file with tweets.
pub const TWEET_FILE_NAME: &'static str = "tweet.js";

/// Name of the file with tweets.
pub const TWEETS_FILE_NAME: &'static str = "tweets.js";

/// Position of the first byte from `i` on that is no white space.
pub open spec fn past_space(b: Seq<u8>, i: int) -> int
    decreases b.len() - i,
{
    if 0 <= i < b.len() && ascii_space(b[i]) {
        past_space(b, i + 1)
    } else {
        i
    }
}

/// Position of the first `=` from `i` on, or the end.
pub open spec fn find_equals(b: Seq<u8>, i: int) -> int
    decreases b.len() - i,
{
    if 0 <= i < b.len() && b[i] != 61 {
        find_equals(b, i + 1)
    } else {
        i
    }
}

/// Where the array of a payload file starts: at the first byte when it is
/// `[`, else after the first `=`.
pub open spec fn array_start(b: Seq<u8>) -> Option<int> {
    let s = past_space(b, 0);
    let e = find_equals(b, s);
    let t = past_space(b, e + 1);
    if s < b.len() && b[s] == 91 {
        Some(s)
    } else if e >= b.len() || t >= b.len() {
        None
    } else {
        Some(t)
    }
}

fn skip_space(b: &[u8], from: usize) -> (r: usize)
    requires
        from <= b@.len(),
    ensures
        from <= r <= b@.len(),
        r == past_space(b@, from as int),
{
    let mut i: usize = from;
    while i < b.len() && (b[i] == 32 || b[i] == 9 || b[i] == 10 || b[i] == 12 || b[i] == 13)
        invariant
            from <= i <= b@.len(),
            past_space(b@, from as int) == past_space(b@, i as int),
        decreases b.len() - i,
    {
        i = i + 1;
    }
    i
}

/// Where the array of a payload file starts, after white space and the
/// assignment in front of it. `label` names the file in the error.
pub fn skip_ytd_assignment(b: &[u8], label: &str) -> (r: Result<usize, Error>)
    ensures
        match r {
            Ok(n) => n < b@.len() && array_start(b@) == Some(n as int),
            Err(Error::Ingest(m)) => array_start(b@) is None && m@
                == "missing window.YTD assignment in "@ + label@,
            Err(_) => false,
        },
{
    let s = skip_space(b, 0);
    if s < b.len() && b[s] == 91 {
        return Ok(s);
    }
    let mut e: usize = s;
    while e < b.len() && b[e] != 61
        invariant
            s <= e <= b@.len(),
            s == past_space(b@, 0),
            find_equals(b@, s as int) == find_equals(b@, e as int),
        decreases b.len() - e,
    {
        e = e + 1;
    }
    if e >= b.len() {
        return Err(Error::Ingest(cat("missing window.YTD assignment in ", label)));
    }
    let t = skip_space(b, e + 1);
    if t >= b.len() {
        return Err(Error::Ingest(cat("missing window.YTD assignment in ", label)));
    }
    Ok(t)
}

/// The username in an account object.
pub open spec fn account_name(a: Atom) -> Option<Seq<char>> {
    match a {
        Atom::Obj(root) => match lookup(root, "account"@) {
            Some(Atom::Obj(fs)) => own_text(lookup(fs, "username"@)),
            Some(other) => own_text(Some(other)),
            None => own_text(lookup(root, "username"@)),
        },
        _ => None,
    }
}

fn name_under(fields: &ExtraMap) -> (r: Option<String>)
    ensures
        opt_view(r) == own_text(lookup(fields@, "username"@)),
{
    match fields.get("username") {
        Some(a) => string_of_atom(a),
        None => None,
    }
}

/// The username in an account object.
pub fn username_from_atom(a: &JsonAtom) -> (r: Option<String>)
    ensures
        opt_view(r) == account_name(a@),
{
    match a {
        JsonAtom::Object(root) => {
            proof {
                lemma_atom(arbitrary(), *root);
            }
            match root.get("account") {
                Some(JsonAtom::Object(fields)) => {
                    proof {
                        lemma_atom(arbitrary(), *fields);
                    }
                    name_under(fields)
                },
                Some(other) => {
                    proof {
                        if other is Array {
                            lemma_atom(other->Array_0, ExtraMap { entries: arbitrary() });
                        }
                    }
                    string_of_atom(other)
                },
                None => name_under(root),
            }
        },
        _ => None,
    }
}

/// A name that can be an account: not empty and no email address.
pub open spec fn account_like(name: Option<Seq<char>>) -> Option<Seq<char>> {
    if filled(name) && !name->0.contains('@') {
        name
    } else {
        None
    }
}

/// The name, when it can be an account.
pub fn usable_account(name: Option<String>) -> (r: Option<String>)
    ensures
        opt_view(r) == account_like(opt_view(name)),
{
    match name {
        Some(s) => if !s.is_empty() && !contains_char(&s, '@') {
            Some(s)
        } else {
            None
        },
        None => None,
    }
}

/// An account name is never an email address.
pub proof fn law_account_is_no_email(name: Option<Seq<char>>)
    ensures
        account_like(name) is Some ==> !account_like(name)->0.contains('@') && account_like(
            name,
        )->0.len() > 0,
{
}

/// The fields of an object. Another value has none.
pub open spec fn fields_of(a: Atom) -> Seq<(Seq<char>, Atom)> {
    match a {
        Atom::Obj(fs) => fs,
        _ => Seq::empty(),
    }
}

/// The value under the first of two keys that is there.
pub open spec fn either_key(fs: Seq<(Seq<char>, Atom)>, a: Seq<char>, b: Seq<char>) -> Option<Atom> {
    if lookup(fs, a) is Some {
        lookup(fs, a)
    } else {
        lookup(fs, b)
    }
}

/// An id with its kind in front, or the kind alone.
pub open spec fn kind_id(kind: Seq<char>, id: Option<Seq<char>>) -> Seq<char> {
    match id {
        Some(x) => kind + "-"@ + x,
        None => kind,
    }
}

/// A conversation with one text.
pub open spec fn one_text(
    id: Seq<char>,
    text: Option<Seq<char>>,
    created: Option<Atom>,
    extra: Seq<(Seq<char>, Atom)>,
) -> ItemView {
    plain_item(
        ConversationView {
            id: Some(id),
            create_time: match created {
                Some(a) => Some(stamp_of(a)),
                None => None,
            },
            extra,
            ..empty_conversation()
        },
        match text {
            Some(s) => seq![said(s, id, created)],
            None => Seq::empty(),
        },
    )
}

/// The text of a direct message.
pub open spec fn dm_said(a: Atom, conversation: Seq<char>) -> Option<ResponseItemView> {
    match a {
        Atom::Obj(wrapper) => {
            let fs = match either_key(wrapper, "messageCreate"@, "message"@) {
                Some(Atom::Obj(inner)) => inner,
                _ => wrapper,
            };
            match own_text(lookup(fs, "text"@)) {
                Some(s) => Some(said(s, conversation, either_key(fs, "createdAt"@, "created_at"@))),
                None => None,
            }
        },
        _ => None,
    }
}

/// The texts of direct messages.
pub open spec fn dms_said(v: Seq<Atom>, conversation: Seq<char>) -> Seq<ResponseItemView>
    decreases v.len(),
{
    if v.len() == 0 {
        Seq::empty()
    } else {
        let head = dms_said(v.drop_last(), conversation);
        match dm_said(v.last(), conversation) {
            Some(x) => head.push(x),
            None => head,
        }
    }
}

/// The conversation of a tweet.
pub open spec fn tweet(a: Atom, extra: Seq<(Seq<char>, Atom)>) -> ItemView {
    let fs = fields_of(a);
    one_text(
        kind_id("tweet"@, opt_id(either_key(fs, "id_str"@, "id"@))),
        own_text(either_key(fs, "full_text"@, "text"@)),
        lookup(fs, "created_at"@),
        extra,
    )
}

/// The conversation of a like.
pub open spec fn like(a: Atom, extra: Seq<(Seq<char>, Atom)>) -> ItemView {
    let fs = fields_of(a);
    one_text(
        kind_id("like"@, opt_id(lookup(fs, "tweetId"@))),
        own_text(either_key(fs, "fullText"@, "full_text"@)),
        None,
        extra,
    )
}

/// The conversation of direct messages.
pub open spec fn dm(a: Atom, extra: Seq<(Seq<char>, Atom)>) -> ItemView {
    let fs = fields_of(a);
    let id = kind_id("dm"@, opt_id(lookup(fs, "conversationId"@)));
    plain_item(
        ConversationView { id: Some(id), extra, ..empty_conversation() },
        match lookup(fs, "messages"@) {
            Some(Atom::Arr(v)) => dms_said(v, id),
            _ => Seq::empty(),
        },
    )
}

/// The conversation of an array item: a tweet, a like, or direct messages.
pub open spec fn archive_item(a: Atom) -> Option<ItemView> {
    match a {
        Atom::Obj(fs) => if lookup(fs, "tweet"@) is Some {
            Some(tweet(lookup(fs, "tweet"@)->0, fs))
        } else if lookup(fs, "like"@) is Some {
            Some(like(lookup(fs, "like"@)->0, fs))
        } else if lookup(fs, "dmConversation"@) is Some {
            Some(dm(lookup(fs, "dmConversation"@)->0, fs))
        } else {
            None
        },
        _ => None,
    }
}

fn get_either<'a>(fields: &'a ExtraMap, a: &str, b: &str) -> (r: Option<&'a JsonAtom>)
    ensures
        ref_atom(r) == either_key(fields@, a@, b@),
{
    match fields.get(a) {
        Some(x) => Some(x),
        None => fields.get(b),
    }
}

fn id_at(a: Option<&JsonAtom>) -> (r: Option<String>)
    ensures
        opt_view(r) == opt_id(ref_atom(a)),
{
    match a {
        Some(x) => stringify_id(x),
        None => None,
    }
}

fn text_at(a: Option<&JsonAtom>) -> (r: Option<String>)
    ensures
        opt_view(r) == own_text(ref_atom(a)),
{
    match a {
        Some(x) => string_of_atom(x),
        None => None,
    }
}

fn copy_at(a: Option<&JsonAtom>) -> (r: Option<JsonAtom>)
    ensures
        opt_atom(r) == ref_atom(a),
{
    match a {
        Some(x) => Some(x.copied()),
        None => None,
    }
}

fn with_kind(kind: &str, id: Option<String>) -> (r: String)
    ensures
        r@ == kind_id(kind@, opt_view(id)),
{
    match id {
        Some(x) => {
            let mut s = cat(kind, "-");
            s.push_str(&x);
            s
        },
        None => kind.to_owned(),
    }
}

/// A copy of the fields of an object.
fn fields_copy(a: &JsonAtom) -> (r: ExtraMap)
    ensures
        r@ == fields_of(a@),
{
    match a {
        JsonAtom::Object(fields) => {
            proof {
                lemma_atom(arbitrary(), *fields);
            }
            fields.copied()
        },
        JsonAtom::Array(v) => {
            proof {
                lemma_atom(*v, ExtraMap { entries: arbitrary() });
            }
            ExtraMap::new()
        },
        _ => ExtraMap::new(),
    }
}

/// A conversation with one text.
fn conversation_item(
    id: String,
    text: Option<String>,
    created: Option<JsonAtom>,
    extra: ExtraMap,
) -> (r: ConversationItem)
    ensures
        r@ == one_text(id@, opt_view(text), opt_atom(created), extra@),
{
    let ghost want = one_text(id@, opt_view(text), opt_atom(created), extra@);
    let mut responses: Vec<ResponseItem> = Vec::new();
    if let Some(s) = text {
        responses.push(text_response(s, &id, copied_atom(&created)));
    }
    let create_time = match created {
        Some(a) => Some(atom_to_timestamp(a)),
        None => None,
    };
    let r = ConversationItem {
        conversation: Conversation { id: Some(id), create_time, extra, ..Default::default() },
        responses,
        extra: ExtraMap::new(),
    };
    proof {
        assert(r@.responses =~= want.responses);
    }
    r
}

/// The text of a direct message.
fn dm_response(a: &JsonAtom, conversation_id: &str) -> (r: Option<ResponseItem>)
    ensures
        match r {
            Some(x) => dm_said(a@, conversation_id@) == Some(x@),
            None => dm_said(a@, conversation_id@) is None,
        },
{
    match a {
        JsonAtom::Object(wrapper) => {
            proof {
                lemma_atom(arbitrary(), *wrapper);
            }
            let fields = match get_either(wrapper, "messageCreate", "message") {
                Some(JsonAtom::Object(inner)) => {
                    proof {
                        lemma_atom(arbitrary(), *inner);
                    }
                    inner
                },
                _ => wrapper,
            };
            match text_at(fields.get("text")) {
                Some(s) => {
                    let created = copy_at(get_either(fields, "createdAt", "created_at"));
                    Some(text_response(s, conversation_id, created))
                },
                None => None,
            }
        },
        _ => None,
    }
}

/// The conversation of direct messages.
fn dm_item(fields: &ExtraMap, extra: ExtraMap) -> (r: ConversationItem)
    ensures
        r@ == dm(Atom::Obj(fields@), extra@),
{
    let ghost want = dm(Atom::Obj(fields@), extra@);
    let id = with_kind("dm", id_at(fields.get("conversationId")));
    let mut responses: Vec<ResponseItem> = Vec::new();
    proof {
        assert(response_views(responses@) =~= Seq::<ResponseItemView>::empty());
    }
    if let Some(JsonAtom::Array(messages)) = fields.get("messages") {
        let ghost all = atoms(messages@);
        let mut i: usize = 0;
        proof {
            lemma_atom(*messages, ExtraMap { entries: arbitrary() });
            assert(all.take(0) =~= Seq::<Atom>::empty());
        }
        while i < messages.len()
            invariant
                i <= messages@.len(),
                all == atoms(messages@),
                response_views(responses@) == dms_said(all.take(i as int), id@),
            decreases messages.len() - i,
        {
            proof {
                assert(all.take(i + 1).drop_last() =~= all.take(i as int));
                assert(all.take(i + 1).last() == messages@[i as int]@);
            }
            if let Some(x) = dm_response(&messages[i], &id) {
                let ghost held = response_views(responses@);
                responses.push(x);
                proof {
                    assert(response_views(responses@) =~= held.push(x@));
                }
            }
            i = i + 1;
        }
        proof {
            assert(all.take(all.len() as int) =~= all);
        }
    }
    let r = ConversationItem {
        conversation: Conversation { id: Some(id), extra, ..Default::default() },
        responses,
        extra: ExtraMap::new(),
    };
    proof {
        assert(r@.responses =~= want.responses);
    }
    r
}

/// The conversation of an array item.
pub fn item_from_atom(a: JsonAtom) -> (r: Option<ConversationItem>)
    ensures
        match r {
            Some(item) => archive_item(a@) == Some(item@),
            None => archive_item(a@) is None,
        },
{
    match a {
        JsonAtom::Object(fields) => {
            proof {
                lemma_atom(arbitrary(), fields);
            }
            if let Some(t) = fields.get("tweet") {
                let fs = fields_copy(t);
                let id = with_kind("tweet", id_at(get_either(&fs, "id_str", "id")));
                let text = text_at(get_either(&fs, "full_text", "text"));
                let created = copy_at(fs.get("created_at"));
                return Some(conversation_item(id, text, created, fields));
            }
            if let Some(l) = fields.get("like") {
                let fs = fields_copy(l);
                let id = with_kind("like", id_at(fs.get("tweetId")));
                let text = text_at(get_either(&fs, "fullText", "full_text"));
                return Some(conversation_item(id, text, None, fields));
            }
            if let Some(d) = fields.get("dmConversation") {
                let fs = fields_copy(d);
                return Some(dm_item(&fs, fields));
            }
            None
        },
        _ => None,
    }
}

/// The folder of an archive that holds the payload files. `nested` and
/// `own` tell where the account file is: in `data`, and in the folder.
pub fn data_root(dir: &str, nested: bool, own: bool) -> (r: Option<String>)
    ensures
        opt_view(r) == (if nested {
            Some(joined(dir@, "data"@))
        } else if own {
            Some(dir@)
        } else {
            None
        }),
{
    if nested {
        Some(join_path(dir, "data"))
    } else if own {
        Some(dir.to_owned())
    } else {
        None
    }
}

/// A like is kept with its text: one response that says it, under the id of
/// the liked post.
pub proof fn law_like_says_its_text(
    fs: Seq<(Seq<char>, Atom)>,
    inner: Seq<(Seq<char>, Atom)>,
    s: Seq<char>,
    id: Seq<char>,
)
    requires
        lookup(fs, "tweet"@) is None,
        lookup(fs, "like"@) == Some(Atom::Obj(inner)),
        lookup(inner, "fullText"@) == Some(Atom::Text(s)) || (lookup(inner, "fullText"@) is None
            && lookup(inner, "full_text"@) == Some(Atom::Text(s))),
        s.len() > 0,
    ensures
        archive_item(Atom::Obj(fs)) is Some,
        says(archive_item(Atom::Obj(fs))->0, seq![s]),
        archive_item(Atom::Obj(fs))->0.conversation.extra == fs,
        archive_item(Atom::Obj(fs))->0.conversation.create_time is None,
        archive_item(Atom::Obj(fs))->0.responses[0].response.conversation_id == archive_item(
            Atom::Obj(fs),
        )->0.conversation.id,
        id.len() > 0 && lookup(inner, "tweetId"@) == Some(Atom::Text(id)) ==> archive_item(
            Atom::Obj(fs),
        )->0.conversation.id == Some("like-"@ + id),
{
    reveal_strlit("like");
    reveal_strlit("-");
    reveal_strlit("like-");
    assert("like"@ + "-"@ =~= "like-"@);
}

/// A tweet is kept with its text and its time: one response that says it,
/// under the id of the tweet.
pub proof fn law_tweet_says_its_text(
    fs: Seq<(Seq<char>, Atom)>,
    inner: Seq<(Seq<char>, Atom)>,
    s: Seq<char>,
    id: Seq<char>,
    time: Seq<char>,
)
    requires
        lookup(fs, "tweet"@) == Some(Atom::Obj(inner)),
        lookup(inner, "full_text"@) == Some(Atom::Text(s)) || (lookup(inner, "full_text"@) is None
            && lookup(inner, "text"@) == Some(Atom::Text(s))),
        s.len() > 0,
    ensures
        archive_item(Atom::Obj(fs)) is Some,
        says(archive_item(Atom::Obj(fs))->0, seq![s]),
        archive_item(Atom::Obj(fs))->0.conversation.extra == fs,
        archive_item(Atom::Obj(fs))->0.responses[0].response.conversation_id == archive_item(
            Atom::Obj(fs),
        )->0.conversation.id,
        id.len() > 0 && lookup(inner, "id_str"@) == Some(Atom::Text(id)) ==> archive_item(
            Atom::Obj(fs),
        )->0.conversation.id == Some("tweet-"@ + id),
        id.len() > 0 && lookup(inner, "id_str"@) is None && lookup(inner, "id"@) == Some(
            Atom::Text(id),
        ) ==> archive_item(Atom::Obj(fs))->0.conversation.id == Some("tweet-"@ + id),
        lookup(inner, "created_at"@) == Some(Atom::Text(time)) ==> archive_item(
            Atom::Obj(fs),
        )->0.conversation.create_time == Some(Stamp::Iso(time)) && archive_item(
            Atom::Obj(fs),
        )->0.responses[0].response.create_time == Some(Stamp::Iso(time)),
{
    reveal_strlit("tweet");
    reveal_strlit("-");
    reveal_strlit("tweet-");
    assert("tweet"@ + "-"@ =~= "tweet-"@);
}

/// The fields of a direct message: those under `messageCreate` or `message`,
/// else its own.
pub open spec fn message_fields(a: Atom) -> Seq<(Seq<char>, Atom)> {
    match a {
        Atom::Obj(w) => match (lookup(w, "messageCreate"@), lookup(w, "message"@)) {
            (Some(Atom::Obj(inner)), _) => inner,
            (None, Some(Atom::Obj(inner))) => inner,
            _ => w,
        },
        _ => Seq::empty(),
    }
}

/// Direct messages are kept, all of them and in order: each text is a response
/// of the conversation.
pub proof fn law_direct_messages_say_their_texts(
    fs: Seq<(Seq<char>, Atom)>,
    inner: Seq<(Seq<char>, Atom)>,
    v: Seq<Atom>,
    texts: Seq<Seq<char>>,
    id: Seq<char>,
)
    requires
        lookup(fs, "tweet"@) is None,
        lookup(fs, "like"@) is None,
        lookup(fs, "dmConversation"@) == Some(Atom::Obj(inner)),
        lookup(inner, "messages"@) == Some(Atom::Arr(v)),
        lookup(inner, "conversationId"@) == Some(Atom::Text(id)),
        id.len() > 0,
        texts.len() == v.len(),
        forall|j: int|
            0 <= j < v.len() ==> lookup(message_fields(#[trigger] v[j]), "text"@) == Some(
                Atom::Text(texts[j]),
            ) && texts[j].len() > 0,
    ensures
        archive_item(Atom::Obj(fs)) is Some,
        says(archive_item(Atom::Obj(fs))->0, texts),
        archive_item(Atom::Obj(fs))->0.conversation.extra == fs,
        archive_item(Atom::Obj(fs))->0.conversation.id == Some("dm-"@ + id),
{
    reveal_strlit("dm");
    reveal_strlit("-");
    reveal_strlit("dm-");
    assert("dm"@ + "-"@ =~= "dm-"@);
    lemma_dms_say(v, texts, "dm-"@ + id);
}

proof fn lemma_dms_say(v: Seq<Atom>, texts: Seq<Seq<char>>, id: Seq<char>)
    requires
        texts.len() == v.len(),
        forall|j: int|
            0 <= j < v.len() ==> lookup(message_fields(#[trigger] v[j]), "text"@) == Some(
                Atom::Text(texts[j]),
            ) && texts[j].len() > 0,
    ensures
        dms_said(v, id).len() == texts.len(),
        forall|j: int|
            0 <= j < texts.len() ==> (#[trigger] dms_said(v, id)[j]).response.message == Some(
                Atom::Text(texts[j]),
            ),
    decreases v.len(),
{
    if v.len() > 0 {
        let n = v.len() - 1;
        let (w, t) = (v.drop_last(), texts.drop_last());
        assert forall|j: int| 0 <= j < w.len() implies lookup(
            message_fields(#[trigger] w[j]),
            "text"@,
        ) == Some(Atom::Text(t[j])) && t[j].len() > 0 by {
            assert(w[j] == v[j]);
        }
        lemma_dms_say(w, t, id);
        let a = v[n];
        assert(v.last() == a);
        assert(lookup(message_fields(a), "text"@) == Some(Atom::Text(texts[n])));
        if !(a is Obj) {
            assert(lookup(Seq::<(Seq<char>, Atom)>::empty(), "text"@) is None);
        }
        let head = dms_said(w, id);
        assert(dms_said(v, id).drop_last() =~= head);
        assert forall|j: int| 0 <= j < texts.len() implies (#[trigger] dms_said(
            v,
            id,
        )[j]).response.message == Some(Atom::Text(texts[j])) by {
            if j < n {
                assert(dms_said(v, id)[j] == head[j]);
            }
        }
    }
}

/// An object that is no tweet, no like and no direct messages is no
/// conversation, and nor is any other value.
pub proof fn law_only_three_kinds(a: Atom)
    ensures
        archive_item(a) is Some <==> match a {
            Atom::Obj(fs) => lookup(fs, "tweet"@) is Some || lookup(fs, "like"@) is Some || lookup(
                fs,
                "dmConversation"@,
            ) is Some,
            _ => false,
        },
{
}

/// White space of a payload file.
pub open spec fn all_space(b: Seq<u8>) -> bool {
    forall|i: int|
        0 <= i < b.len() ==> #[trigger] b[i] == 32 || b[i] == 9 || b[i] == 10 || b[i] == 12 || b[i]
            == 13
}

/// A payload file starts behind its assignment, or with its array: white space
/// is passed over, and nothing else.
pub proof fn law_payload_start(lead: Seq<u8>, space: Seq<u8>, rest: Seq<u8>)
    requires
        all_space(space),
        rest.len() > 0,
        !all_space(rest.take(1)),
    ensures
        rest[0] == 91 ==> array_start(space + rest) == Some(space.len() as int),
        !lead.contains(61) && !lead.contains(91) ==> array_start(lead + seq![61u8] + space + rest)
            == Some(lead.len() as int + 1 + space.len()),
        !rest.contains(61) && rest[0] != 91 ==> array_start(space + rest) is None,
{
    let a = space + rest;
    let b = lead + seq![61u8] + space + rest;
    assert(!ascii_space(rest[0])) by {
        if ascii_space(rest[0]) {
            assert(all_space(rest.take(1)));
        }
    }
    assert forall|i: int| 0 <= i < space.len() implies ascii_space(#[trigger] space[i]) by {}
    lemma_past_space(a, 0, space.len() as int);
    if !lead.contains(61) && !lead.contains(91) {
        let n = lead.len() as int;
        assert forall|i: int| 0 <= i < n implies b[i] != 61 && b[i] != 91 by {
            assert(lead.contains(lead[i]));
        }
        lemma_space_before(b, 0, n);
        let s = past_space(b, 0);
        assert(b[n] == 61);
        lemma_find_equals(b, s, n);
        lemma_past_space(b, n + 1, n + 1 + space.len());
    }
    if !rest.contains(61) && rest[0] != 91 {
        let s = space.len() as int;
        assert forall|i: int| s <= i < a.len() implies a[i] != 61 by {
            assert(rest.contains(rest[i - s]));
        }
        lemma_find_equals(a, s, a.len() as int);
    }
}

proof fn lemma_past_space(b: Seq<u8>, i: int, j: int)
    requires
        0 <= i <= j < b.len(),
        forall|k: int| i <= k < j ==> ascii_space(#[trigger] b[k]),
        !ascii_space(b[j]),
    ensures
        past_space(b, i) == j,
    decreases j - i,
{
    if i < j {
        assert(ascii_space(b[i]));
        lemma_past_space(b, i + 1, j);
    }
}

proof fn lemma_space_before(b: Seq<u8>, i: int, n: int)
    requires
        0 <= i <= n < b.len(),
        b[n] == 61,
    ensures
        i <= past_space(b, i) <= n,
    decreases n - i,
{
    if i < n && ascii_space(b[i]) {
        lemma_space_before(b, i + 1, n);
    }
}

proof fn lemma_find_equals(b: Seq<u8>, i: int, n: int)
    requires
        0 <= i <= n <= b.len(),
        forall|k: int| i <= k < n ==> #[trigger] b[k] != 61,
        n < b.len() ==> b[n] == 61,
    ensures
        find_equals(b, i) == n,
    decreases n - i,
{
    if i < n {
        assert(b[i] != 61);
        lemma_find_equals(b, i + 1, n);
    }
}

/// The account name is the username of the account object, or the one beside
/// it where there is none.
pub proof fn law_account_is_the_username(
    root: Seq<(Seq<char>, Atom)>,
    inner: Seq<(Seq<char>, Atom)>,
    name: Seq<char>,
)
    requires
        name.len() > 0,
    ensures
        lookup(root, "account"@) == Some(Atom::Obj(inner)) && lookup(inner, "username"@) == Some(
            Atom::Text(name),
        ) ==> account_name(Atom::Obj(root)) == Some(name),
        lookup(root, "account"@) == Some(Atom::Text(name)) ==> account_name(Atom::Obj(root))
            == Some(name),
        lookup(root, "account"@) is None && lookup(root, "username"@) == Some(Atom::Text(name))
            ==> account_name(Atom::Obj(root)) == Some(name),
        !name.contains('@') ==> account_like(Some(name)) == Some(name),
{
}

} // verus!
