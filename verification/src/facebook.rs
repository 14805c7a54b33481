//! Facebook and Instagram exports: one conversation for each object.
use vstd::prelude::*;

use crate::markdown::{relative_to, slashed_relative};
use crate::names::{FACEBOOK_ACTIVITY_DIR, INSTAGRAM_ACTIVITY_DIR};
use crate::pairs::{law_placed_is_found, lookup, placed};
use crate::paths::{file_name, file_name_of, join_path, joined, opt_view};
use crate::records::{
    atom_to_timestamp, bare, bare_response, empty_conversation, empty_response, plain_item,
    response_views, says, stamp_of, Conversation, ConversationItem, ConversationView, ItemView,
    Response, ResponseItem, ResponseItemView, ResponseView, Stamp,
};
use crate::schema::{atoms, lemma_atom, opt_atom, Atom, ExtraMap, JsonAtom};
use crate::telegram::{id_text, opt_id, own_text, stringify_id};
use crate::text::{
    cat, cat3, decimal, decimal_usize, either, join, join_with, replace_char, replaced, same_str,
    split2, split_by, starts, starts_with, views,
};

verus! {

/// The strings in a value that are not empty.
pub open spec fn strings_in(a: Atom) -> Seq<Seq<char>>
    decreases a,
{
    match a {
        Atom::Text(s) => if s.len() > 0 {
            seq![s]
        } else {
            Seq::empty()
        },
        Atom::Arr(v) => strings_in_all(v),
        Atom::Obj(fs) => strings_in_fields(fs),
        _ => Seq::empty(),
    }
}

/// The strings in values.
pub open spec fn strings_in_all(v: Seq<Atom>) -> Seq<Seq<char>>
    decreases v,
{
    if v.len() == 0 {
        Seq::empty()
    } else {
        strings_in_all(v.drop_last()) + strings_in(v[v.len() - 1])
    }
}

/// The strings in the values of an object.
pub open spec fn strings_in_fields(fs: Seq<(Seq<char>, Atom)>) -> Seq<Seq<char>>
    decreases fs,
{
    if fs.len() == 0 {
        Seq::empty()
    } else {
        strings_in_fields(fs.drop_last()) + strings_in(fs[fs.len() - 1].1)
    }
}

/// Appends the strings in a value.
fn collect_strings(a: &JsonAtom, out: &mut Vec<String>)
    ensures
        views(final(out)@) == views(old(out)@) + strings_in(a@),
    decreases a@,
{
    let ghost start = views(out@);
    match a {
        JsonAtom::String(s) => {
            if !s.is_empty() {
                out.push(s.clone());
                proof {
                    assert(views(out@) =~= start + seq![s@]);
                }
            } else {
                proof {
                    assert(views(out@) =~= start + strings_in(a@));
                }
            }
        },
        JsonAtom::Array(v) => {
            let ghost all = atoms(v@);
            let mut i: usize = 0;
            proof {
                lemma_atom(*v, ExtraMap { entries: arbitrary() });
                assert(all.take(0) =~= Seq::<Atom>::empty());
                assert(start + strings_in_all(all.take(0)) =~= start);
            }
            while i < v.len()
                invariant
                    i <= v@.len(),
                    all == atoms(v@),
                    a@ == Atom::Arr(all),
                    views(out@) == start + strings_in_all(all.take(i as int)),
                decreases v.len() - i,
            {
                proof {
                    assert(all.take(i + 1).drop_last() =~= all.take(i as int));
                    assert(decreases_to!(a@ => a@->Arr_0));
                    assert(decreases_to!(all => all[i as int]));
                    assert(all[i as int] == v@[i as int]@);
                }
                collect_strings(&v[i], out);
                proof {
                    assert(views(out@) =~= start + strings_in_all(all.take(i + 1)));
                }
                i = i + 1;
            }
            proof {
                assert(all.take(all.len() as int) =~= all);
            }
        },
        JsonAtom::Object(m) => {
            let ghost all = m@;
            let mut i: usize = 0;
            proof {
                lemma_atom(arbitrary(), *m);
                assert(all.take(0) =~= Seq::<(Seq<char>, Atom)>::empty());
                assert(start + strings_in_fields(all.take(0)) =~= start);
            }
            while i < m.entries.len()
                invariant
                    i <= m.entries@.len(),
                    all == m@,
                    a@ == Atom::Obj(all),
                    views(out@) == start + strings_in_fields(all.take(i as int)),
                decreases m.entries.len() - i,
            {
                proof {
                    assert(all.take(i + 1).drop_last() =~= all.take(i as int));
                    assert(decreases_to!(a@ => a@->Obj_0));
                    assert(decreases_to!(all => all[i as int]));
                    assert(decreases_to!(all[i as int] => all[i as int].1));
                }
                collect_strings(&m.entries[i].1, out);
                proof {
                    assert(views(out@) =~= start + strings_in_fields(all.take(i + 1)));
                }
                i = i + 1;
            }
            proof {
                assert(all.take(all.len() as int) =~= all);
            }
        },
        _ => {
            proof {
                assert(views(out@) =~= start + strings_in(a@));
            }
        },
    }
}

/// The strings in a value, one per line.
pub fn data_strings(a: &JsonAtom) -> (r: String)
    ensures
        r@ == join(strings_in(a@), "\n"@),
{
    let mut parts: Vec<String> = Vec::new();
    collect_strings(a, &mut parts);
    proof {
        assert(views(parts@) =~= strings_in(a@));
    }
    join_with(parts.as_slice(), "\n")
}

/// A response with a text, and a time that is also its id.
pub open spec fn said(text: Seq<char>, conversation: Seq<char>, time: Option<Atom>) ->
    ResponseItemView {
    bare(
        ResponseView {
            _id: opt_id(time),
            conversation_id: Some(conversation),
            message: Some(Atom::Text(text)),
            create_time: match time {
                Some(a) => Some(stamp_of(a)),
                None => None,
            },
            ..empty_response()
        },
    )
}

/// A response with a text.
pub fn text_response(text: String, conversation_id: &str, time: Option<JsonAtom>) -> (r:
    ResponseItem)
    ensures
        r@ == said(text@, conversation_id@, opt_atom(time)),
{
    let id = match &time {
        Some(a) => stringify_id(a),
        None => None,
    };
    let create_time = match time {
        Some(a) => Some(atom_to_timestamp(a)),
        None => None,
    };
    bare_response(
        Response {
            _id: id,
            conversation_id: Some(conversation_id.to_owned()),
            message: Some(JsonAtom::String(text)),
            create_time,
            ..Default::default()
        },
    )
}

/// Id of an object: the path of its file with its own id, its time, or its
/// place in the file.
pub open spec fn object_id(
    path: Seq<char>,
    index: nat,
    id: Option<Seq<char>>,
    time: Option<Atom>,
) -> Seq<char> {
    path + "#"@ + if id is Some && id->0.len() > 0 {
        id->0
    } else if opt_id(time) is Some {
        opt_id(time)->0
    } else {
        decimal(index)
    }
}

/// Id of an object.
pub fn stable_id(path: &str, index: usize, id: &Option<String>, time: &Option<JsonAtom>) -> (r:
    String)
    ensures
        r@ == object_id(path@, index as nat, opt_view(*id), opt_atom(*time)),
{
    if let Some(x) = id {
        if !x.is_empty() {
            return cat3(path, "#", x);
        }
    }
    if let Some(a) = time {
        if let Some(stamp) = stringify_id(a) {
            return cat3(path, "#", &stamp);
        }
    }
    cat3(path, "#", &decimal_usize(index))
}

/// The text of a message object, and its time.
pub open spec fn message_said(a: Atom, conversation: Seq<char>) -> Option<ResponseItemView> {
    match a {
        Atom::Obj(fs) => match own_text(lookup(fs, "content"@)) {
            Some(s) => Some(
                said(
                    s,
                    conversation,
                    if lookup(fs, "timestamp_ms"@) is Some {
                        lookup(fs, "timestamp_ms"@)
                    } else {
                        lookup(fs, "timestamp"@)
                    },
                ),
            ),
            None => None,
        },
        _ => None,
    }
}

/// The responses of message objects.
pub open spec fn messages_said(v: Seq<Atom>, conversation: Seq<char>) -> Seq<ResponseItemView>
    decreases v.len(),
{
    if v.len() == 0 {
        Seq::empty()
    } else {
        let head = messages_said(v.drop_last(), conversation);
        match message_said(v.last(), conversation) {
            Some(x) => head.push(x),
            None => head,
        }
    }
}

/// The responses under `messages`.
pub open spec fn listed_messages(extra: Seq<(Seq<char>, Atom)>, conversation: Seq<char>) -> Seq<
    ResponseItemView,
> {
    match lookup(extra, "messages"@) {
        Some(Atom::Arr(v)) => messages_said(v, conversation),
        _ => Seq::empty(),
    }
}

fn message_response(a: &JsonAtom, conversation_id: &str) -> (r: Option<ResponseItem>)
    ensures
        match r {
            Some(x) => message_said(a@, conversation_id@) == Some(x@),
            None => message_said(a@, conversation_id@) is None,
        },
{
    match a {
        JsonAtom::Object(fields) => {
            proof {
                lemma_atom(arbitrary(), *fields);
            }
            match fields.get("content") {
                Some(JsonAtom::String(s)) => {
                    if s.is_empty() {
                        return None;
                    }
                    let time = match fields.get("timestamp_ms") {
                        Some(t) => Some(t.copied()),
                        None => match fields.get("timestamp") {
                            Some(t) => Some(t.copied()),
                            None => None,
                        },
                    };
                    Some(text_response(s.clone(), conversation_id, time))
                },
                _ => None,
            }
        },
        _ => None,
    }
}

/// The responses under `messages`.
pub fn push_message_responses(extra: &ExtraMap, conversation_id: &str) -> (r: Vec<ResponseItem>)
    ensures
        response_views(r@) == listed_messages(extra@, conversation_id@),
{
    let mut out: Vec<ResponseItem> = Vec::new();
    proof {
        assert(response_views(out@) =~= Seq::<ResponseItemView>::empty());
    }
    match extra.get("messages") {
        Some(JsonAtom::Array(items)) => {
            let ghost all = atoms(items@);
            let mut i: usize = 0;
            proof {
                lemma_atom(*items, ExtraMap { entries: arbitrary() });
                assert(all.take(0) =~= Seq::<Atom>::empty());
            }
            while i < items.len()
                invariant
                    i <= items@.len(),
                    all == atoms(items@),
                    response_views(out@) == messages_said(all.take(i as int), conversation_id@),
                decreases items.len() - i,
            {
                proof {
                    assert(all.take(i + 1).drop_last() =~= all.take(i as int));
                    assert(all.take(i + 1).last() == items@[i as int]@);
                }
                if let Some(x) = message_response(&items[i], conversation_id) {
                    let ghost held = response_views(out@);
                    out.push(x);
                    proof {
                        assert(response_views(out@) =~= held.push(x@));
                    }
                }
                i = i + 1;
            }
            proof {
                assert(all.take(all.len() as int) =~= all);
            }
            out
        },
        _ => out,
    }
}

/// What has been read of an object.
pub struct FacebookObject {
    pub title: Option<String>,
    pub id: Option<String>,
    pub timestamp: Option<JsonAtom>,
    pub data: Option<JsonAtom>,
    pub content: Option<String>,
    pub extra: ExtraMap,
}

/// What has been read of an object.
#[verifier::ext_equal]
pub struct ObjectView {
    pub title: Option<Seq<char>>,
    pub id: Option<Seq<char>>,
    pub timestamp: Option<Atom>,
    pub data: Option<Atom>,
    pub content: Option<Seq<char>>,
    pub extra: Seq<(Seq<char>, Atom)>,
}

impl View for FacebookObject {
    type V = ObjectView;

    open spec fn view(&self) -> ObjectView {
        ObjectView {
            title: opt_view(self.title),
            id: opt_view(self.id),
            timestamp: opt_atom(self.timestamp),
            data: opt_atom(self.data),
            content: opt_view(self.content),
            extra: self.extra@,
        }
    }
}

/// An object after one more value. The first time counts. Every key stays
/// as a leftover key.
pub open spec fn object_with(c: ObjectView, key: Seq<char>, a: Atom) -> ObjectView {
    let extra = placed(c.extra, key, a);
    if key == "title"@ {
        ObjectView { title: own_text(Some(a)), extra, ..c }
    } else if key == "id"@ {
        ObjectView { id: id_text(a), extra, ..c }
    } else if key == "timestamp"@ || key == "timestamp_ms"@ {
        ObjectView {
            timestamp: if c.timestamp is None {
                Some(a)
            } else {
                c.timestamp
            },
            extra,
            ..c
        }
    } else if key == "data"@ {
        ObjectView { data: Some(a), extra, ..c }
    } else if key == "content"@ {
        ObjectView { content: own_text(Some(a)), extra, ..c }
    } else {
        ObjectView { extra, ..c }
    }
}

/// The responses of an object: its messages, its content, and the strings
/// of its data.
pub open spec fn object_responses(c: ObjectView, id: Seq<char>) -> Seq<ResponseItemView> {
    let content = match c.content {
        Some(s) => seq![said(s, id, None)],
        None => Seq::empty(),
    };
    let data = match c.data {
        Some(a) => if join(strings_in(a), "\n"@).len() > 0 {
            seq![said(join(strings_in(a), "\n"@), id, None)]
        } else {
            Seq::empty()
        },
        None => Seq::empty(),
    };
    listed_messages(c.extra, id) + content + data
}

/// The conversation of the object at `index` of a file.
pub open spec fn object_item(c: ObjectView, path: Seq<char>, index: nat) -> ItemView {
    let id = object_id(replace_char(path, '\\', '/'), index, c.id, c.timestamp);
    plain_item(
        ConversationView {
            id: Some(id),
            title: c.title,
            create_time: match c.timestamp {
                Some(a) => Some(stamp_of(a)),
                None => None,
            },
            extra: c.extra,
            ..empty_conversation()
        },
        object_responses(c, id),
    )
}

impl FacebookObject {
    /// Nothing read yet.
    pub fn new() -> (r: FacebookObject)
        ensures
            r@ == (ObjectView {
                title: None,
                id: None,
                timestamp: None,
                data: None,
                content: None,
                extra: Seq::empty(),
            }),
    {
        FacebookObject {
            title: None,
            id: None,
            timestamp: None,
            data: None,
            content: None,
            extra: ExtraMap::new(),
        }
    }

    /// Reads one more value.
    pub fn value(&mut self, key: String, a: JsonAtom)
        ensures
            final(self)@ == object_with(old(self)@, key@, a@),
    {
        if same_str(&key, "title") {
            self.title = string_of_atom(&a);
        } else if same_str(&key, "id") {
            self.id = stringify_id(&a);
        } else if same_str(&key, "timestamp") || same_str(&key, "timestamp_ms") {
            if self.timestamp.is_none() {
                self.timestamp = Some(a.copied());
            }
        } else if same_str(&key, "data") {
            self.data = Some(a.copied());
        } else if same_str(&key, "content") {
            self.content = string_of_atom(&a);
        }
        self.extra.insert(key, a);
    }

    /// The conversation of the object at `index` of the file `path`.
    pub fn into_item(self, path: &str, index: usize) -> (r: ConversationItem)
        ensures
            r@ == object_item(self@, path@, index as nat),
    {
        let ghost want = object_item(self@, path@, index as nat);
        let label = replaced(path, '\\', '/');
        let id = stable_id(&label, index, &self.id, &self.timestamp);
        let mut responses = push_message_responses(&self.extra, &id);
        let ghost first = response_views(responses@);
        let ghost mut second: Seq<ResponseItemView> = Seq::empty();
        let ghost mut third: Seq<ResponseItemView> = Seq::empty();
        if let Some(text) = self.content {
            let x = text_response(text, &id, None);
            proof {
                second = seq![x@];
            }
            responses.push(x);
        }
        proof {
            assert(response_views(responses@) =~= first + second);
        }
        if let Some(data) = &self.data {
            let text = data_strings(data);
            if !text.is_empty() {
                let x = text_response(text, &id, None);
                proof {
                    third = seq![x@];
                }
                responses.push(x);
            }
        }
        let create_time = match self.timestamp {
            Some(a) => Some(atom_to_timestamp(a)),
            None => None,
        };
        proof {
            assert(response_views(responses@) =~= first + second + third);
        }
        let r = ConversationItem {
            conversation: Conversation {
                id: Some(id),
                title: self.title,
                create_time,
                extra: self.extra,
                ..Default::default()
            },
            responses,
            extra: ExtraMap::new(),
        };
        proof {
            assert(r@.responses =~= want.responses);
        }
        r
    }
}

/// A string that is not empty.
pub fn string_of_atom(a: &JsonAtom) -> (r: Option<String>)
    ensures
        opt_view(r) == own_text(Some(a@)),
{
    match a {
        JsonAtom::String(s) => if s.is_empty() {
            None
        } else {
            Some(s.clone())
        },
        _ => None,
    }
}

/// The directory is itself an activity folder.
pub open spec fn is_activity(dir: Seq<char>) -> bool {
    file_name(dir) == Some(FACEBOOK_ACTIVITY_DIR@) || file_name(dir) == Some(INSTAGRAM_ACTIVITY_DIR@)
}

/// Whether the directory is itself an activity folder.
pub fn is_activity_dir(dir: &str) -> (r: bool)
    ensures
        r == is_activity(dir@),
{
    match file_name_of(dir) {
        Some(name) => same_str(&name, FACEBOOK_ACTIVITY_DIR) || same_str(
            &name,
            INSTAGRAM_ACTIVITY_DIR,
        ),
        None => false,
    }
}

/// Whether a directory is an export: an activity folder, or it has one.
/// `facebook` and `instagram` tell which it has.
pub fn is_facebook_dir(dir: &str, facebook: bool, instagram: bool) -> (r: bool)
    ensures
        r == (is_activity(dir@) || facebook || instagram),
{
    is_activity_dir(dir) || facebook || instagram
}

/// The activity folder of an export.
pub open spec fn root_of_activity(dir: Seq<char>, facebook: bool, instagram: bool) -> Seq<char> {
    if is_activity(dir) {
        dir
    } else if facebook {
        joined(dir, FACEBOOK_ACTIVITY_DIR@)
    } else if instagram {
        joined(dir, INSTAGRAM_ACTIVITY_DIR@)
    } else {
        dir
    }
}

/// The activity folder of an export.
pub fn activity_root(dir: &str, facebook: bool, instagram: bool) -> (r: String)
    ensures
        r@ == root_of_activity(dir@, facebook, instagram),
{
    if is_activity_dir(dir) {
        dir.to_owned()
    } else if facebook {
        join_path(dir, FACEBOOK_ACTIVITY_DIR)
    } else if instagram {
        join_path(dir, INSTAGRAM_ACTIVITY_DIR)
    } else {
        dir.to_owned()
    }
}

/// The activity folders of an export.
pub open spec fn roots_of_activity(dir: Seq<char>, facebook: bool, instagram: bool) -> Seq<
    Seq<char>,
> {
    if is_activity(dir) || (!facebook && !instagram) {
        seq![dir]
    } else if facebook && instagram {
        seq![joined(dir, FACEBOOK_ACTIVITY_DIR@), joined(dir, INSTAGRAM_ACTIVITY_DIR@)]
    } else if facebook {
        seq![joined(dir, FACEBOOK_ACTIVITY_DIR@)]
    } else {
        seq![joined(dir, INSTAGRAM_ACTIVITY_DIR@)]
    }
}

/// The activity folders of an export.
pub fn activity_roots(dir: &str, facebook: bool, instagram: bool) -> (r: Vec<String>)
    ensures
        views(r@) == roots_of_activity(dir@, facebook, instagram),
{
    let mut out: Vec<String> = Vec::new();
    if is_activity_dir(dir) || (!facebook && !instagram) {
        out.push(dir.to_owned());
    } else {
        if facebook {
            out.push(join_path(dir, FACEBOOK_ACTIVITY_DIR));
        }
        if instagram {
            out.push(join_path(dir, INSTAGRAM_ACTIVITY_DIR));
        }
    }
    proof {
        assert(views(out@) =~= roots_of_activity(dir@, facebook, instagram));
    }
    out
}

/// A part of the path is the Instagram activity folder.
pub open spec fn instagram_path(path: Seq<char>) -> bool {
    split_by(path, either('/', '\\')).contains(INSTAGRAM_ACTIVITY_DIR@)
}

/// The name of a file in an export: its path under the activity folder
/// `root`, with the name of the folder in front.
pub open spec fn inner_label(root: Seq<char>, file: Seq<char>) -> Seq<char> {
    let rel = slashed_relative(root, file);
    let activity = if instagram_path(file) {
        INSTAGRAM_ACTIVITY_DIR@
    } else {
        FACEBOOK_ACTIVITY_DIR@
    };
    if rel == activity || starts(rel, activity + "/"@) {
        rel
    } else {
        activity + "/"@ + rel
    }
}

/// Whether a part of the path is the Instagram activity folder.
fn is_instagram_path(path: &str) -> (r: bool)
    ensures
        r == instagram_path(path@),
{
    let parts = split2(path, '/', '\\');
    let ghost all = views(parts@);
    let mut i: usize = 0;
    while i < parts.len()
        invariant
            i <= parts@.len(),
            all == views(parts@),
            all == split_by(path@, either('/', '\\')),
            forall|k: int| 0 <= k < i ==> #[trigger] all[k] != INSTAGRAM_ACTIVITY_DIR@,
        decreases parts.len() - i,
    {
        if same_str(&parts[i], INSTAGRAM_ACTIVITY_DIR) {
            proof {
                assert(all[i as int] == INSTAGRAM_ACTIVITY_DIR@);
            }
            return true;
        }
        i = i + 1;
    }
    false
}

/// The name of a file in an export with the activity folder `root`.
pub fn json_label(root: &str, file: &str) -> (r: String)
    ensures
        r@ == inner_label(root@, file@),
{
    let rel = relative_to(root, file);
    let activity = if is_instagram_path(file) {
        INSTAGRAM_ACTIVITY_DIR
    } else {
        FACEBOOK_ACTIVITY_DIR
    };
    if same_str(&rel, activity) || starts_with(&rel, &cat(activity, "/")) {
        rel
    } else {
        cat3(activity, "/", &rel)
    }
}

/// The strings of a value are all the strings in it that are not empty, in
/// order, however deep they stand.
pub proof fn law_strings_are_all_there(
    a: Seq<Atom>,
    b: Seq<Atom>,
    fs: Seq<(Seq<char>, Atom)>,
    gs: Seq<(Seq<char>, Atom)>,
    s: Seq<char>,
)
    requires
        s.len() > 0,
    ensures
        strings_in(Atom::Text(s)) == seq![s],
        strings_in(Atom::Arr(seq![Atom::Text(s)])) == seq![s],
        strings_in(Atom::Arr(a + b)) == strings_in(Atom::Arr(a)) + strings_in(Atom::Arr(b)),
        strings_in(Atom::Obj(fs + gs)) == strings_in(Atom::Obj(fs)) + strings_in(Atom::Obj(gs)),
        strings_in(Atom::Arr(seq![Atom::Obj(fs)])) == strings_in(Atom::Obj(fs)),
        strings_in(Atom::Arr(seq![Atom::Arr(a)])) == strings_in(Atom::Arr(a)),
        forall|key: Seq<char>, x: Atom| #[trigger]
            strings_in(Atom::Obj(seq![(key, x)])) == strings_in(x),
{
    lemma_strings_split(a, b);
    lemma_field_strings_split(fs, gs);
    lemma_one_string(Atom::Text(s));
    lemma_one_string(Atom::Obj(fs));
    lemma_one_string(Atom::Arr(a));
    assert forall|key: Seq<char>, x: Atom| true implies #[trigger] strings_in(
        Atom::Obj(seq![(key, x)]),
    ) == strings_in(x) by {
        let one = seq![(key, x)];
        reveal_with_fuel(strings_in_fields, 2);
        assert(one.drop_last() =~= Seq::<(Seq<char>, Atom)>::empty());
        assert(strings_in_fields(one) =~= strings_in(x));
    }
}

proof fn lemma_one_string(x: Atom)
    ensures
        strings_in(Atom::Arr(seq![x])) == strings_in(x),
{
    reveal_with_fuel(strings_in_all, 2);
    let one = seq![x];
    assert(one.drop_last() =~= Seq::<Atom>::empty());
    assert(strings_in_all(one) =~= strings_in(x));
}

proof fn lemma_strings_split(a: Seq<Atom>, b: Seq<Atom>)
    ensures
        strings_in_all(a + b) == strings_in_all(a) + strings_in_all(b),
    decreases b.len(),
{
    if b.len() == 0 {
        assert(a + b =~= a);
        assert(strings_in_all(a) + strings_in_all(b) =~= strings_in_all(a));
    } else {
        lemma_strings_split(a, b.drop_last());
        assert((a + b).drop_last() =~= a + b.drop_last());
        assert(strings_in_all(a + b) =~= strings_in_all(a) + strings_in_all(b));
    }
}

proof fn lemma_field_strings_split(a: Seq<(Seq<char>, Atom)>, b: Seq<(Seq<char>, Atom)>)
    ensures
        strings_in_fields(a + b) == strings_in_fields(a) + strings_in_fields(b),
    decreases b.len(),
{
    if b.len() == 0 {
        assert(a + b =~= a);
        assert(strings_in_fields(a) + strings_in_fields(b) =~= strings_in_fields(a));
    } else {
        lemma_field_strings_split(a, b.drop_last());
        assert((a + b).drop_last() =~= a + b.drop_last());
        assert(strings_in_fields(a + b) =~= strings_in_fields(a) + strings_in_fields(b));
    }
}

/// The messages of an object are kept, all of them and in order, and each
/// says its content.
pub proof fn law_messages_say_their_content(
    extra: Seq<(Seq<char>, Atom)>,
    v: Seq<Atom>,
    texts: Seq<Seq<char>>,
    conversation: Seq<char>,
)
    requires
        lookup(extra, "messages"@) == Some(Atom::Arr(v)),
        texts.len() == v.len(),
        forall|j: int|
            0 <= j < v.len() ==> match #[trigger] v[j] {
                Atom::Obj(fs) => lookup(fs, "content"@) == Some(Atom::Text(texts[j])),
                _ => false,
            } && texts[j].len() > 0,
    ensures
        listed_messages(extra, conversation).len() == texts.len(),
        forall|j: int|
            0 <= j < texts.len() ==> (#[trigger] listed_messages(extra, conversation)[j]).response.message
                == Some(Atom::Text(texts[j])) && listed_messages(
                extra,
                conversation,
            )[j].response.conversation_id == Some(conversation),
{
    lemma_messages_said(v, texts, conversation);
}

proof fn lemma_messages_said(v: Seq<Atom>, texts: Seq<Seq<char>>, conversation: Seq<char>)
    requires
        texts.len() == v.len(),
        forall|j: int|
            0 <= j < v.len() ==> match #[trigger] v[j] {
                Atom::Obj(fs) => lookup(fs, "content"@) == Some(Atom::Text(texts[j])),
                _ => false,
            } && texts[j].len() > 0,
    ensures
        messages_said(v, conversation).len() == texts.len(),
        forall|j: int|
            0 <= j < texts.len() ==> (#[trigger] messages_said(v, conversation)[j]).response.message
                == Some(Atom::Text(texts[j])) && messages_said(v, conversation)[j].response.conversation_id
                == Some(conversation),
    decreases v.len(),
{
    if v.len() > 0 {
        let n = v.len() - 1;
        let (w, t) = (v.drop_last(), texts.drop_last());
        assert forall|j: int| 0 <= j < w.len() implies match #[trigger] w[j] {
            Atom::Obj(fs) => lookup(fs, "content"@) == Some(Atom::Text(t[j])),
            _ => false,
        } && t[j].len() > 0 by {
            assert(w[j] == v[j]);
        }
        lemma_messages_said(w, t, conversation);
        let last = v[n];
        assert(last is Obj && texts[n].len() > 0);
        let head = messages_said(w, conversation);
        assert forall|j: int| 0 <= j < texts.len() implies (#[trigger] messages_said(
            v,
            conversation,
        )[j]).response.message == Some(Atom::Text(texts[j])) && messages_said(
            v,
            conversation,
        )[j].response.conversation_id == Some(conversation) by {
            if j < n {
                assert(messages_said(v, conversation)[j] == head[j]);
            }
        }
    }
}

/// The time of a message is its `timestamp_ms`, else its `timestamp`.
pub proof fn law_message_time(fs: Seq<(Seq<char>, Atom)>, s: Seq<char>, t: Seq<char>, c: Seq<char>)
    requires
        s.len() > 0,
        t.len() > 0,
        lookup(fs, "content"@) == Some(Atom::Text(s)),
        lookup(fs, "timestamp_ms"@) == Some(Atom::Text(t)) || (lookup(fs, "timestamp_ms"@) is None
            && lookup(fs, "timestamp"@) == Some(Atom::Text(t))),
    ensures
        messages_said(seq![Atom::Obj(fs)], c).len() == 1,
        messages_said(seq![Atom::Obj(fs)], c)[0].response.create_time == Some(Stamp::Iso(t)),
        messages_said(seq![Atom::Obj(fs)], c)[0].response._id == Some(t),
{
    reveal_with_fuel(messages_said, 2);
    assert(seq![Atom::Obj(fs)].drop_last() =~= Seq::<Atom>::empty());
}

/// Each key of an object fills its own field, the first time stays, and every
/// key is kept.
pub proof fn law_object_fields(c: ObjectView, key: Seq<char>, a: Atom, s: Seq<char>)
    requires
        s.len() > 0,
    ensures
        lookup(object_with(c, key, a).extra, key) == Some(a),
        object_with(c, "title"@, Atom::Text(s)).title == Some(s),
        object_with(c, "id"@, Atom::Text(s)).id == Some(s),
        object_with(c, "content"@, Atom::Text(s)).content == Some(s),
        object_with(c, "data"@, a).data == Some(a),
        c.timestamp is None ==> object_with(c, "timestamp"@, a).timestamp == Some(a),
        c.timestamp is None ==> object_with(c, "timestamp_ms"@, a).timestamp == Some(a),
        c.timestamp is Some ==> object_with(c, key, a).timestamp == c.timestamp,
        key != "timestamp"@ && key != "timestamp_ms"@ ==> object_with(c, key, a).timestamp
            == c.timestamp,
        key != "title"@ ==> object_with(c, key, a).title == c.title,
        key != "id"@ ==> object_with(c, key, a).id == c.id,
        key != "content"@ ==> object_with(c, key, a).content == c.content,
        key != "data"@ ==> object_with(c, key, a).data == c.data,
{
    law_placed_is_found(c.extra, key, a, key);
    reveal_strlit("title");
    reveal_strlit("id");
    reveal_strlit("content");
    reveal_strlit("data");
    reveal_strlit("timestamp");
    reveal_strlit("timestamp_ms");
    assert("title"@.len() == 5 && "id"@.len() == 2 && "content"@.len() == 7 && "data"@.len() == 4
        && "timestamp"@.len() == 9 && "timestamp_ms"@.len() == 12);
}

/// An object says its messages, its content and the strings of its data, one
/// line each.
pub proof fn law_object_says_it_all(c: ObjectView, path: Seq<char>, index: nat, s: Seq<char>)
    requires
        c.content == Some(s),
        c.data is Some,
        join(strings_in(c.data->0), seq!['\n']).len() > 0,
        lookup(c.extra, "messages"@) is None,
    ensures
        says(object_item(c, path, index), seq![s, join(strings_in(c.data->0), seq!['\n'])]),
        object_item(c, path, index).conversation.title == c.title,
        object_item(c, path, index).conversation.extra == c.extra,
{
    reveal_strlit("\n");
    assert("\n"@ =~= seq!['\n']);
}

/// The id of an object is its file with the id, the time or the position of
/// the object, in this order.
pub proof fn law_object_id(c: ObjectView, path: Seq<char>, index: nat, s: Seq<char>)
    requires
        s.len() > 0,
        !path.contains('\\'),
    ensures
        c.id == Some(s) ==> object_item(c, path, index).conversation.id == Some(
            path + seq!['#'] + s,
        ),
        c.id is None && c.timestamp == Some(Atom::Text(s)) ==> object_item(
            c,
            path,
            index,
        ).conversation.id == Some(path + seq!['#'] + s),
        c.id is None && c.timestamp is None ==> object_item(c, path, index).conversation.id == Some(
            path + seq!['#'] + decimal(index),
        ),
{
    reveal_strlit("#");
    assert("#"@ =~= seq!['#']);
    assert(replace_char(path, '\\', '/') =~= path) by {
        assert forall|i: int| 0 <= i < path.len() implies path[i] != '\\' by {
            assert(path.contains(path[i]));
        }
    }
}

/// The folders that a dump is read from: itself where it is an activity
/// folder, else each activity folder that is there.
pub proof fn law_activity_roots(dir: Seq<char>, facebook: bool, instagram: bool)
    ensures
        is_activity(dir) <==> file_name(dir) == Some("your_facebook_activity"@) || file_name(dir)
            == Some("your_instagram_activity"@),
        is_activity(dir) ==> roots_of_activity(dir, facebook, instagram) == seq![dir],
        !is_activity(dir) && facebook ==> roots_of_activity(dir, facebook, instagram)[0] == joined(
            dir,
            "your_facebook_activity"@,
        ),
        !is_activity(dir) && instagram ==> roots_of_activity(dir, facebook, instagram).last()
            == joined(dir, "your_instagram_activity"@),
        !is_activity(dir) && facebook && instagram ==> roots_of_activity(
            dir,
            facebook,
            instagram,
        ).len() == 2,
        !is_activity(dir) && facebook != instagram ==> roots_of_activity(
            dir,
            facebook,
            instagram,
        ).len() == 1,
        !is_activity(dir) && !facebook && !instagram ==> roots_of_activity(dir, facebook, instagram)
            == seq![dir],
        root_of_activity(dir, facebook, instagram) == roots_of_activity(dir, facebook, instagram)[0],
{
}

/// A label starts with the activity folder that its file lies in, once.
pub proof fn law_label_names_its_folder(root: Seq<char>, file: Seq<char>)
    ensures
        ({
            let folder = if split_by(file, either('/', '\\')).contains("your_instagram_activity"@) {
                "your_instagram_activity"@
            } else {
                "your_facebook_activity"@
            };
            let rel = slashed_relative(root, file);
            &&& inner_label(root, file) == rel || inner_label(root, file) == folder + seq!['/'] + rel
            &&& folder.is_prefix_of(inner_label(root, file))
            &&& rel == folder || (folder + seq!['/']).is_prefix_of(rel) ==> inner_label(root, file)
                == rel
        }),
{
    reveal_strlit("/");
    assert("/"@ =~= seq!['/']);
    let folder = if instagram_path(file) {
        INSTAGRAM_ACTIVITY_DIR@
    } else {
        FACEBOOK_ACTIVITY_DIR@
    };
    let rel = slashed_relative(root, file);
    let label = inner_label(root, file);
    if rel == folder {
        assert(label.take(folder.len() as int) =~= folder);
    } else if starts(rel, folder + "/"@) {
        let p = folder + "/"@;
        assert(rel.take(folder.len() as int) =~= rel.take(p.len() as int).take(
            folder.len() as int,
        ));
        assert(p.take(folder.len() as int) =~= folder);
    } else {
        assert(label.take(folder.len() as int) =~= folder);
    }
}

} // verus!
