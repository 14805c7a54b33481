//! Two copies of one conversation become one.
use vstd::hash_map::StringHashMap;
use vstd::prelude::*;

use crate::bytes::same_bytes;
use crate::codec::{encoder, fails_on, faithful, hash_response, root_of};
use crate::hash::Digest;
use crate::order::{before, is_before, law_string_order};
use crate::pairs::{law_union_with_itself, union};
use crate::paths::opt_view;
use crate::records::{
    opt_stamp, response_views, Conversation, ConversationItem, ConversationView, ItemView,
    ResponseItem, ResponseItemView, Stamp, Timestamp,
};
use crate::schema::{atoms, lemma_atom, union_extra, Atom, ExtraMap, JsonAtom};
use crate::text::{cat, cat3, decimal, decimal_i64, decimal_int, decimal_u64, join, join_with, views};
use crate::utf::byte_len;
use crate::Error;

verus! {

/// Bytes of text in a JSON value. Numbers and booleans count one.
pub open spec fn atom_size(a: Atom) -> nat
    decreases a,
{
    match a {
        Atom::Null => 0,
        Atom::Bool(_) | Atom::I64(_) | Atom::U64(_) | Atom::F64(_, _) => 1,
        Atom::Text(s) => vstd::utf8::encode_utf8(s).len(),
        Atom::Arr(v) => array_size(v),
        Atom::Obj(v) => object_size(v),
    }
}

/// Bytes of text in the elements of an array.
pub open spec fn array_size(v: Seq<Atom>) -> nat
    decreases v,
{
    if v.len() == 0 {
        0
    } else {
        array_size(v.drop_last()) + atom_size(v[v.len() - 1])
    }
}

/// Bytes of text in the values of an object.
pub open spec fn object_size(v: Seq<(Seq<char>, Atom)>) -> nat
    decreases v,
{
    if v.len() == 0 {
        0
    } else {
        object_size(v.drop_last()) + atom_size(v[v.len() - 1].1)
    }
}

/// A size as a machine word holds it.
pub open spec fn capped(n: nat) -> nat {
    if n > usize::MAX {
        usize::MAX as nat
    } else {
        n
    }
}

pub fn capped_sum(a: usize, b: usize) -> (r: usize)
    ensures
        r == capped((a + b) as nat),
{
    if a > usize::MAX - b {
        usize::MAX
    } else {
        a + b
    }
}

/// Bytes of text in a JSON value.
pub fn atom_len(a: &JsonAtom) -> (r: usize)
    ensures
        r == capped(atom_size(a@)),
    decreases a,
{
    match a {
        JsonAtom::Null => 0,
        JsonAtom::Bool(_) | JsonAtom::I64(_) | JsonAtom::U64(_) | JsonAtom::F64(_) => 1,
        JsonAtom::String(s) => s.len(),
        JsonAtom::Array(v) => {
            let ghost all = atoms(v@);
            let mut sum: usize = 0;
            let mut i: usize = 0;
            proof {
                assert(all.take(0) =~= Seq::<Atom>::empty());
            }
            while i < v.len()
                invariant
                    i <= v@.len(),
                    all == atoms(v@),
                    *a == JsonAtom::Array(*v),
                    sum == capped(array_size(all.take(i as int))),
                decreases v.len() - i,
            {
                proof {
                    assert(decreases_to!(*a => a->Array_0));
                    assert(decreases_to!(*v => v@));
                    assert(decreases_to!(v@ => v@[i as int]));
                    assert(all.take(i + 1).drop_last() =~= all.take(i as int));
                }
                sum = capped_sum(sum, atom_len(&v[i]));
                i = i + 1;
            }
            proof {
                assert(all.take(all.len() as int) =~= all);
                lemma_atom(*v, ExtraMap { entries: arbitrary() });
            }
            sum
        },
        JsonAtom::Object(m) => {
            let v = &m.entries;
            let ghost all = m@;
            let mut sum: usize = 0;
            let mut i: usize = 0;
            proof {
                assert(all.take(0) =~= Seq::<(Seq<char>, Atom)>::empty());
            }
            while i < v.len()
                invariant
                    i <= v@.len(),
                    all == m@,
                    *v == m.entries,
                    *a == JsonAtom::Object(*m),
                    sum == capped(object_size(all.take(i as int))),
                decreases v.len() - i,
            {
                proof {
                    assert(decreases_to!(*a => a->Object_0));
                    assert(decreases_to!(*m => m.entries));
                    assert(decreases_to!(*v => v@));
                    assert(decreases_to!(v@ => v@[i as int]));
                    assert(decreases_to!(v@[i as int] => v@[i as int].1));
                    assert(all.take(i + 1).drop_last() =~= all.take(i as int));
                }
                sum = capped_sum(sum, atom_len(&v[i].1));
                i = i + 1;
            }
            proof {
                assert(all.take(all.len() as int) =~= all);
                lemma_atom(arbitrary(), *m);
            }
            sum
        },
    }
}

/// Bytes of text in the message of a response.
pub open spec fn message_size(x: ResponseItemView) -> nat {
    match x.response.message {
        Some(a) => atom_size(a),
        None => 0,
    }
}

/// Bytes of text in the message of a response.
pub fn message_len(item: &ResponseItem) -> (r: usize)
    ensures
        r == capped(message_size(item@)),
{
    match &item.response.message {
        Some(a) => atom_len(a),
        None => 0,
    }
}

/// Text by which JSON values in timestamps are ordered.
pub open spec fn atom_key(a: Atom) -> Seq<char>
    decreases a,
{
    match a {
        Atom::Null => "null"@,
        Atom::Bool(b) => if b {
            "btrue"@
        } else {
            "bfalse"@
        },
        Atom::I64(i) => "i"@ + decimal_int(i as int),
        Atom::U64(u) => "u"@ + decimal(u as nat),
        Atom::F64(_, t) => "f"@ + t,
        Atom::Text(s) => s,
        Atom::Arr(v) => join(array_keys(v), ","@),
        Atom::Obj(v) => join(object_keys(v), ","@),
    }
}

/// The texts of the elements of an array.
pub open spec fn array_keys(v: Seq<Atom>) -> Seq<Seq<char>>
    decreases v,
{
    if v.len() == 0 {
        Seq::empty()
    } else {
        array_keys(v.drop_last()).push(atom_key(v[v.len() - 1]))
    }
}

/// The texts of the entries of an object.
pub open spec fn object_keys(v: Seq<(Seq<char>, Atom)>) -> Seq<Seq<char>>
    decreases v,
{
    if v.len() == 0 {
        Seq::empty()
    } else {
        object_keys(v.drop_last()).push(v[v.len() - 1].0 + "="@ + atom_key(v[v.len() - 1].1))
    }
}

/// Text by which JSON values in timestamps are ordered.
pub fn atom_sort_key(a: &JsonAtom) -> (r: String)
    ensures
        r@ == atom_key(a@),
    decreases a,
{
    match a {
        JsonAtom::Null => "null".to_string(),
        JsonAtom::Bool(b) => if *b {
            "btrue".to_string()
        } else {
            "bfalse".to_string()
        },
        JsonAtom::I64(i) => cat("i", &decimal_i64(*i)),
        JsonAtom::U64(u) => cat("u", &decimal_u64(*u)),
        JsonAtom::F64(f) => cat("f", &f.text),
        JsonAtom::String(s) => s.clone(),
        JsonAtom::Array(v) => {
            let ghost all = atoms(v@);
            let mut parts: Vec<String> = Vec::new();
            let mut i: usize = 0;
            proof {
                assert(all.take(0) =~= Seq::<Atom>::empty());
            }
            while i < v.len()
                invariant
                    i <= v@.len(),
                    all == atoms(v@),
                    *a == JsonAtom::Array(*v),
                    views(parts@) == array_keys(all.take(i as int)),
                decreases v.len() - i,
            {
                proof {
                    assert(decreases_to!(*a => a->Array_0));
                    assert(decreases_to!(*v => v@));
                    assert(decreases_to!(v@ => v@[i as int]));
                    assert(all.take(i + 1).drop_last() =~= all.take(i as int));
                }
                let ghost prior = parts@;
                let key = atom_sort_key(&v[i]);
                parts.push(key);
                proof {
                    assert(views(parts@) =~= views(prior).push(key@));
                }
                i = i + 1;
            }
            proof {
                assert(all.take(all.len() as int) =~= all);
                lemma_atom(*v, ExtraMap { entries: arbitrary() });
            }
            join_with(parts.as_slice(), ",")
        },
        JsonAtom::Object(m) => {
            let v = &m.entries;
            let ghost all = m@;
            let mut parts: Vec<String> = Vec::new();
            let mut i: usize = 0;
            proof {
                assert(all.take(0) =~= Seq::<(Seq<char>, Atom)>::empty());
            }
            while i < v.len()
                invariant
                    i <= v@.len(),
                    all == m@,
                    *v == m.entries,
                    *a == JsonAtom::Object(*m),
                    views(parts@) == object_keys(all.take(i as int)),
                decreases v.len() - i,
            {
                proof {
                    assert(decreases_to!(*a => a->Object_0));
                    assert(decreases_to!(*m => m.entries));
                    assert(decreases_to!(*v => v@));
                    assert(decreases_to!(v@ => v@[i as int]));
                    assert(decreases_to!(v@[i as int] => v@[i as int].1));
                    assert(all.take(i + 1).drop_last() =~= all.take(i as int));
                }
                let ghost prior = parts@;
                let key = cat3(&v[i].0, "=", &atom_sort_key(&v[i].1));
                parts.push(key);
                proof {
                    assert(views(parts@) =~= views(prior).push(key@));
                }
                i = i + 1;
            }
            proof {
                assert(all.take(all.len() as int) =~= all);
                lemma_atom(arbitrary(), *m);
            }
            join_with(parts.as_slice(), ",")
        },
    }
}

/// Text by which timestamps are ordered.
pub open spec fn stamp_key(t: Stamp) -> Seq<char> {
    match t {
        Stamp::Iso(s) => s,
        Stamp::Bson(a) => "bson:"@ + atom_key(a),
        Stamp::Other(a) => "other:"@ + atom_key(a),
    }
}

/// Text by which timestamps are ordered.
pub fn timestamp_sort_key(t: &Timestamp) -> (r: String)
    ensures
        r@ == stamp_key(t@),
{
    match t {
        Timestamp::Iso(s) => s.clone(),
        Timestamp::BsonDate { date } => cat("bson:", &atom_sort_key(date)),
        Timestamp::Other(a) => cat("other:", &atom_sort_key(a)),
    }
}

/// A copy is newer when it has a time and the other has none or an earlier
/// one.
pub open spec fn newer(incoming: Option<Stamp>, existing: Option<Stamp>) -> bool {
    match (incoming, existing) {
        (Some(a), Some(b)) => before(stamp_key(b), stamp_key(a)),
        (Some(_), None) => true,
        _ => false,
    }
}

/// Whether the incoming copy is newer.
pub fn is_newer(incoming: &Option<Timestamp>, existing: &Option<Timestamp>) -> (r: bool)
    ensures
        r == newer(opt_stamp(*incoming), opt_stamp(*existing)),
{
    match incoming {
        Some(a) => match existing {
            Some(b) => is_before(&timestamp_sort_key(b), &timestamp_sort_key(a)),
            None => true,
        },
        None => false,
    }
}

/// The text is there and is not empty.
pub open spec fn filled(s: Option<Seq<char>>) -> bool {
    s is Some && s->0.len() > 0
}

/// Of two texts the longer one. On a tie, the first.
pub open spec fn richer(a: Option<Seq<char>>, b: Option<Seq<char>>) -> Option<Seq<char>> {
    match (a, b) {
        (Some(x), Some(y)) => if vstd::utf8::encode_utf8(y).len() > vstd::utf8::encode_utf8(
            x,
        ).len() {
            b
        } else {
            a
        },
        (Some(_), None) => a,
        (None, _) => b,
    }
}

/// The title or summary that a merged conversation has.
pub open spec fn picked_text(
    existing: Option<Seq<char>>,
    incoming: Option<Seq<char>>,
    incoming_newer: bool,
) -> Option<Seq<char>> {
    if !incoming_newer {
        richer(existing, incoming)
    } else if filled(incoming) {
        incoming
    } else if filled(existing) {
        existing
    } else if incoming is Some {
        incoming
    } else {
        existing
    }
}

/// Whether there is text that is not empty.
pub fn nonempty(s: &Option<String>) -> (r: bool)
    ensures
        r == filled(opt_view(*s)),
{
    match s {
        Some(x) => !x.is_empty(),
        None => false,
    }
}

/// Of two texts the longer one. On a tie, the first.
pub fn richer_text(a: Option<String>, b: Option<String>) -> (r: Option<String>)
    ensures
        opt_view(r) == richer(opt_view(a), opt_view(b)),
{
    match a {
        Some(x) => match b {
            Some(y) => if y.len() > x.len() {
                Some(y)
            } else {
                Some(x)
            },
            None => Some(x),
        },
        None => b,
    }
}

/// The title or summary that a merged conversation has: the newer text when
/// it is not empty, otherwise the longer one.
pub fn pick_text(existing: Option<String>, incoming: Option<String>, incoming_newer: bool) -> (r:
    Option<String>)
    ensures
        opt_view(r) == picked_text(opt_view(existing), opt_view(incoming), incoming_newer),
{
    if !incoming_newer {
        richer_text(existing, incoming)
    } else if nonempty(&incoming) {
        incoming
    } else if nonempty(&existing) {
        existing
    } else if incoming.is_some() {
        incoming
    } else {
        existing
    }
}

/// A field that is set stays, unless the source is set and wins.
pub open spec fn overlaid<T>(dest: Option<T>, src: Option<T>, src_wins: bool) -> Option<T> {
    if src is Some && (dest is None || src_wins) {
        src
    } else {
        dest
    }
}

/// A field that is set stays, unless the source is set and wins.
pub fn overlay_option<T>(dest: Option<T>, src: Option<T>, src_wins_if_set: bool) -> (r: Option<T>)
    ensures
        r == overlaid(dest, src, src_wins_if_set),
{
    if src.is_some() && (dest.is_none() || src_wins_if_set) {
        src
    } else {
        dest
    }
}

/// The conversation that two copies make.
pub open spec fn merged_conversation(
    dest: ConversationView,
    src: ConversationView,
    src_wins: bool,
) -> ConversationView {
    ConversationView {
        title: picked_text(dest.title, src.title, src_wins),
        summary: picked_text(dest.summary, src.summary, src_wins),
        anon_user_id: overlaid(dest.anon_user_id, src.anon_user_id, src_wins),
        asset_ids: overlaid(dest.asset_ids, src.asset_ids, src_wins),
        controller: overlaid(dest.controller, src.controller, src_wins),
        create_time: overlaid(dest.create_time, src.create_time, src_wins),
        id: overlaid(dest.id, src.id, src_wins),
        leaf_response_id: overlaid(dest.leaf_response_id, src.leaf_response_id, src_wins),
        media_types: overlaid(dest.media_types, src.media_types, src_wins),
        modify_time: overlaid(dest.modify_time, src.modify_time, src_wins),
        root_asset_id: overlaid(dest.root_asset_id, src.root_asset_id, src_wins),
        shared_with_team: overlaid(dest.shared_with_team, src.shared_with_team, src_wins),
        shared_with_user_ids: overlaid(dest.shared_with_user_ids, src.shared_with_user_ids, src_wins),
        starred: overlaid(dest.starred, src.starred, src_wins),
        system_prompt_id: overlaid(dest.system_prompt_id, src.system_prompt_id, src_wins),
        system_prompt_name: overlaid(dest.system_prompt_name, src.system_prompt_name, src_wins),
        task_result_id: overlaid(dest.task_result_id, src.task_result_id, src_wins),
        team_id: overlaid(dest.team_id, src.team_id, src_wins),
        temporary: overlaid(dest.temporary, src.temporary, src_wins),
        user_id: overlaid(dest.user_id, src.user_id, src_wins),
        x_user_id: overlaid(dest.x_user_id, src.x_user_id, src_wins),
        extra: union(dest.extra, src.extra, src_wins),
    }
}

/// Merges two copies of a conversation. Set fields of the source win where
/// `src_wins_if_set` says so.
pub fn merge_conversation(dest: Conversation, src: Conversation, src_wins_if_set: bool) -> (r:
    Conversation)
    ensures
        r@ == merged_conversation(dest@, src@, src_wins_if_set),
{
    Conversation {
        title: pick_text(dest.title, src.title, src_wins_if_set),
        summary: pick_text(dest.summary, src.summary, src_wins_if_set),
        anon_user_id: overlay_option(dest.anon_user_id, src.anon_user_id, src_wins_if_set),
        asset_ids: overlay_option(dest.asset_ids, src.asset_ids, src_wins_if_set),
        controller: overlay_option(dest.controller, src.controller, src_wins_if_set),
        create_time: overlay_option(dest.create_time, src.create_time, src_wins_if_set),
        id: overlay_option(dest.id, src.id, src_wins_if_set),
        leaf_response_id: overlay_option(dest.leaf_response_id, src.leaf_response_id, src_wins_if_set),
        media_types: overlay_option(dest.media_types, src.media_types, src_wins_if_set),
        modify_time: overlay_option(dest.modify_time, src.modify_time, src_wins_if_set),
        root_asset_id: overlay_option(dest.root_asset_id, src.root_asset_id, src_wins_if_set),
        shared_with_team: overlay_option(dest.shared_with_team, src.shared_with_team, src_wins_if_set),
        shared_with_user_ids: overlay_option(dest.shared_with_user_ids, src.shared_with_user_ids, src_wins_if_set),
        starred: overlay_option(dest.starred, src.starred, src_wins_if_set),
        system_prompt_id: overlay_option(dest.system_prompt_id, src.system_prompt_id, src_wins_if_set),
        system_prompt_name: overlay_option(dest.system_prompt_name, src.system_prompt_name, src_wins_if_set),
        task_result_id: overlay_option(dest.task_result_id, src.task_result_id, src_wins_if_set),
        team_id: overlay_option(dest.team_id, src.team_id, src_wins_if_set),
        temporary: overlay_option(dest.temporary, src.temporary, src_wins_if_set),
        user_id: overlay_option(dest.user_id, src.user_id, src_wins_if_set),
        x_user_id: overlay_option(dest.x_user_id, src.x_user_id, src_wins_if_set),
        extra: union_extra(dest.extra, src.extra, src_wins_if_set),
    }
}

/// Whether two digests are the same.
pub fn same_digest(a: &Digest, b: &Digest) -> (r: bool)
    ensures
        r == (a.root@ == b.root@),
{
    same_bytes(&a.root, &b.root)
}

/// The elements of `v` in the opposite order.
pub fn reversed<T>(v: Vec<T>) -> (r: Vec<T>)
    ensures
        r@ == v@.reverse(),
{
    let ghost all = v@;
    let mut rest = v;
    let mut out: Vec<T> = Vec::new();
    proof {
        assert(all.skip(all.len() as int).reverse() =~= Seq::<T>::empty());
        assert(all.take(all.len() as int) =~= all);
    }
    loop
        invariant
            rest@.len() <= all.len(),
            rest@ == all.take(rest@.len() as int),
            out@ == all.skip(rest@.len() as int).reverse(),
        ensures
            rest@.len() == 0,
        decreases rest@.len(),
    {
        let ghost n = rest@.len() as int;
        match rest.pop() {
            Some(x) => {
                out.push(x);
                proof {
                    assert(rest@ =~= all.take(n - 1));
                    assert(out@ =~= all.skip(n - 1).reverse());
                }
            },
            None => {
                break;
            },
        }
    }
    proof {
        assert(all.skip(0) =~= all);
    }
    out
}

/// Position of the first response with the id, or -1.
pub open spec fn id_position(v: Seq<ResponseItemView>, id: Seq<char>) -> int
    decreases v.len(),
{
    if v.len() == 0 {
        -1
    } else {
        let p = id_position(v.drop_last(), id);
        if p >= 0 {
            p
        } else if v.last().response._id == Some(id) {
            v.len() - 1
        } else {
            -1
        }
    }
}

/// The same encoded bytes, up to a collision of tree roots.
pub open spec fn same_response(
    a: ResponseItemView,
    b: ResponseItemView,
    enc: spec_fn(ResponseItemView) -> Seq<u8>,
) -> bool {
    root_of(enc(a)) == root_of(enc(b))
}

/// The responses after one more came in. A response with a new id or no id
/// is appended. One that is known stays once. Of two versions under one id,
/// a longer message replaces the first, another one is appended.
pub open spec fn responses_with(
    dest: Seq<ResponseItemView>,
    x: ResponseItemView,
    enc: spec_fn(ResponseItemView) -> Seq<u8>,
) -> Seq<ResponseItemView> {
    match x.response._id {
        None => dest.push(x),
        Some(id) => {
            let p = id_position(dest, id);
            if p < 0 {
                dest.push(x)
            } else if same_response(dest[p], x, enc) {
                dest.update(
                    p,
                    (ResponseItemView { extra: union(dest[p].extra, x.extra, false), ..dest[p] }),
                )
            } else if capped(message_size(x)) > capped(message_size(dest[p])) {
                dest.update(
                    p,
                    (ResponseItemView { extra: union(dest[p].extra, x.extra, true), ..x }),
                )
            } else {
                dest.push(x)
            }
        },
    }
}

/// The responses of two copies of a conversation.
pub open spec fn merged_responses(
    dest: Seq<ResponseItemView>,
    incoming: Seq<ResponseItemView>,
    enc: spec_fn(ResponseItemView) -> Seq<u8>,
) -> Seq<ResponseItemView>
    decreases incoming.len(),
{
    if incoming.len() == 0 {
        dest
    } else {
        responses_with(
            merged_responses(dest, incoming.drop_last(), enc),
            incoming.last(),
            enc,
        )
    }
}

/// Positions by id, as the index of first occurrences keeps them.
pub open spec fn indexed(map: Map<Seq<char>, usize>, v: Seq<ResponseItemView>) -> bool {
    forall|id: Seq<char>|
        #![trigger map.contains_key(id)]
        #![trigger id_position(v, id)]
        (map.contains_key(id) <==> id_position(v, id) >= 0) && (map.contains_key(id) ==> map[id]
            == id_position(v, id))
}

proof fn lemma_id_position(v: Seq<ResponseItemView>, id: Seq<char>)
    ensures
        -1 <= id_position(v, id) < v.len(),
        id_position(v, id) >= 0 ==> v[id_position(v, id)].response._id == Some(id),
    decreases v.len(),
{
    if v.len() > 0 {
        lemma_id_position(v.drop_last(), id);
    }
}

/// A replaced response keeps every position while its id stays.
proof fn lemma_position_update(
    v: Seq<ResponseItemView>,
    p: int,
    x: ResponseItemView,
    id: Seq<char>,
)
    requires
        0 <= p < v.len(),
        x.response._id == v[p].response._id,
    ensures
        id_position(v.update(p, x), id) == id_position(v, id),
    decreases v.len(),
{
    let w = v.update(p, x);
    if p == v.len() - 1 {
        assert(w.drop_last() =~= v.drop_last());
    } else {
        assert(w.drop_last() =~= v.drop_last().update(p, x));
        lemma_position_update(v.drop_last(), p, x, id);
    }
}

proof fn lemma_indexed_push(
    map: Map<Seq<char>, usize>,
    v: Seq<ResponseItemView>,
    x: ResponseItemView,
)
    requires
        indexed(map, v),
        v.len() <= usize::MAX,
    ensures
        x.response._id is None ==> indexed(map, v.push(x)),
        x.response._id is Some && map.contains_key(x.response._id->0) ==> indexed(map, v.push(x)),
        x.response._id is Some && !map.contains_key(x.response._id->0) ==> indexed(
            map.insert(x.response._id->0, v.len() as usize),
            v.push(x),
        ),
{
    assert(v.push(x).drop_last() =~= v);
    assert forall|id: Seq<char>| #[trigger] id_position(v.push(x), id) == if id_position(v, id)
        >= 0 {
        id_position(v, id)
    } else if x.response._id == Some(id) {
        v.len() as int
    } else {
        -1
    } by {}
}

proof fn lemma_indexed_update(
    map: Map<Seq<char>, usize>,
    v: Seq<ResponseItemView>,
    p: int,
    x: ResponseItemView,
)
    requires
        indexed(map, v),
        0 <= p < v.len(),
        x.response._id == v[p].response._id,
    ensures
        indexed(map, v.update(p, x)),
{
    assert forall|id: Seq<char>| #[trigger]
        id_position(v.update(p, x), id) == id_position(v, id) by {
        lemma_position_update(v, p, x, id);
    }
}

/// Positions of the ids in `v`: the first of each.
fn index_ids(v: &Vec<ResponseItem>) -> (r: StringHashMap<usize>)
    ensures
        indexed(r@, response_views(v@)),
{
    let ghost all = response_views(v@);
    let mut r: StringHashMap<usize> = StringHashMap::new();
    let mut i: usize = 0;
    proof {
        assert(all.take(0) =~= Seq::<ResponseItemView>::empty());
    }
    while i < v.len()
        invariant
            i <= v@.len(),
            all == response_views(v@),
            indexed(r@, all.take(i as int)),
        decreases v.len() - i,
    {
        proof {
            assert(all.take(i + 1) =~= all.take(i as int).push(all[i as int]));
            lemma_indexed_push(r@, all.take(i as int), all[i as int]);
        }
        match &v[i].response._id {
            Some(id) => {
                if !r.contains_key(id) {
                    r.insert(id.clone(), i);
                }
            },
            None => {},
        }
        i = i + 1;
    }
    proof {
        assert(all.take(all.len() as int) =~= all);
    }
    r
}

/// Encoding failed with this error in a merge: of an incoming response, or of
/// the one that is held under its id when it comes in. Responses with new ids
/// are not encoded.
pub open spec fn merge_failed<F: Fn(&ResponseItem) -> Result<Vec<u8>, Error>>(
    f: F,
    dest: Seq<ResponseItemView>,
    incoming: Seq<ResponseItemView>,
    e: Error,
) -> bool {
    exists|n: int| 0 <= n < incoming.len() && #[trigger] merge_fails_at(f, dest, incoming, n, e)
}

/// Encoding failed with this error when response `n` came in.
pub open spec fn merge_fails_at<F: Fn(&ResponseItem) -> Result<Vec<u8>, Error>>(
    f: F,
    dest: Seq<ResponseItemView>,
    incoming: Seq<ResponseItemView>,
    n: int,
    e: Error,
) -> bool {
    let held = merged_responses(dest, incoming.take(n), encoder::<ResponseItem, F>(f));
    match incoming[n].response._id {
        Some(id) => {
            let p = id_position(held, id);
            p >= 0 && (fails_on::<ResponseItem, F>(f, held[p], e) || fails_on::<ResponseItem, F>(
                f,
                incoming[n],
                e,
            ))
        },
        None => false,
    }
}

/// Merges the responses of two copies of a conversation.
pub fn merge_responses<F: Fn(&ResponseItem) -> Result<Vec<u8>, Error>>(
    dest: Vec<ResponseItem>,
    incoming: Vec<ResponseItem>,
    f: &F,
) -> (r: Result<Vec<ResponseItem>, Error>)
    requires
        faithful::<ResponseItem, F>(*f),
    ensures
        match r {
            Ok(v) => response_views(v@) == merged_responses(
                response_views(dest@),
                response_views(incoming@),
                encoder::<ResponseItem, F>(*f),
            ),
            Err(e) => merge_failed(*f, response_views(dest@), response_views(incoming@), e),
        },
{
    let ghost enc = encoder::<ResponseItem, F>(*f);
    let ghost given = incoming@;
    let ghost all = response_views(incoming@);
    let ghost start = response_views(dest@);
    let mut by_id = index_ids(&dest);
    let mut out = dest;
    let total: usize = incoming.len();
    let mut rest = reversed(incoming);
    let mut done: usize = 0;
    proof {
        assert(all.take(0) =~= Seq::<ResponseItemView>::empty());
        assert(given.skip(0) =~= given);
    }
    while done < total
        invariant
            faithful::<ResponseItem, F>(*f),
            enc == encoder::<ResponseItem, F>(*f),
            all == response_views(given),
            given == incoming@,
            start == response_views(dest@),
            total == given.len(),
            done <= total,
            rest@ == given.skip(done as int).reverse(),
            indexed(by_id@, response_views(out@)),
            response_views(out@) == merged_responses(start, all.take(done as int), enc),
        decreases total - done,
    {
        let ghost held = response_views(out@);
        let ghost before_rest = rest@;
        let x = match rest.pop() {
            Some(x) => x,
            None => {
                return Ok(out);
            },
        };
        proof {
            assert(x == given[done as int]);
            assert(rest@ =~= given.skip(done + 1).reverse());
            assert(all.take(done + 1).drop_last() =~= all.take(done as int));
            assert(all.take(done + 1).last() == x@);
        }
        let size: usize = out.len();
        let found: Option<usize> = match &x.response._id {
            Some(id) => match by_id.get(id) {
                Some(p) => Some(*p),
                None => {
                    proof {
                        lemma_indexed_push(by_id@, held, x@);
                    }
                    by_id.insert(id.clone(), size);
                    None
                },
            },
            None => None,
        };
        match found {
            Some(p) => {
                proof {
                    lemma_id_position(held, x@.response._id->0);
                }
                let mine = match hash_response(&out[p], f) {
                    Ok(d) => d,
                    Err(e) => {
                        assert(merge_fails_at(*f, start, all, done as int, e));
                        return Err(e);
                    },
                };
                let theirs = match hash_response(&x, f) {
                    Ok(d) => d,
                    Err(e) => {
                        assert(merge_fails_at(*f, start, all, done as int, e));
                        return Err(e);
                    },
                };
                if same_digest(&mine, &theirs) {
                    out[p].extra.union_with(x.extra, false);
                    proof {
                        assert(response_views(out@) =~= responses_with(held, x@, enc));
                        lemma_indexed_update(by_id@, held, p as int, out@[p as int]@);
                    }
                } else if message_len(&x) > message_len(&out[p]) {
                    let base = out[p].extra.copied();
                    let kept = ResponseItem {
                        response: x.response,
                        share_link: x.share_link,
                        extra: union_extra(base, x.extra, true),
                    };
                    out.set(p, kept);
                    proof {
                        assert(response_views(out@) =~= responses_with(held, x@, enc));
                        lemma_indexed_update(by_id@, held, p as int, out@[p as int]@);
                    }
                } else {
                    proof {
                        lemma_indexed_push(by_id@, held, x@);
                    }
                    out.push(x);
                    proof {
                        assert(response_views(out@) =~= held.push(x@));
                    }
                }
            },
            None => {
                proof {
                    if x.response._id is None {
                        lemma_indexed_push(by_id@, held, x@);
                    }
                }
                out.push(x);
                proof {
                    assert(response_views(out@) =~= held.push(x@));
                }
            },
        }
        done = done + 1;
    }
    proof {
        assert(all.take(all.len() as int) =~= all);
    }
    Ok(out)
}

/// The conversation that two copies make, each with its time.
pub open spec fn enriched(
    existing: ItemView,
    incoming: ItemView,
    existing_modified: Option<Stamp>,
    incoming_modified: Option<Stamp>,
    enc: spec_fn(ResponseItemView) -> Seq<u8>,
) -> ItemView {
    let wins = newer(incoming_modified, existing_modified);
    ItemView {
        conversation: merged_conversation(existing.conversation, incoming.conversation, wins),
        responses: merged_responses(existing.responses, incoming.responses, enc),
        extra: union(existing.extra, incoming.extra, wins),
    }
}

/// Merges an incoming copy of a conversation into the existing one.
pub fn enrich_item<F: Fn(&ResponseItem) -> Result<Vec<u8>, Error>>(
    existing: ConversationItem,
    incoming: ConversationItem,
    existing_modified: &Option<Timestamp>,
    incoming_modified: &Option<Timestamp>,
    f: &F,
) -> (r: Result<ConversationItem, Error>)
    requires
        faithful::<ResponseItem, F>(*f),
    ensures
        match r {
            Ok(item) => item@ == enriched(
                existing@,
                incoming@,
                opt_stamp(*existing_modified),
                opt_stamp(*incoming_modified),
                encoder::<ResponseItem, F>(*f),
            ),
            Err(e) => merge_failed(*f, existing@.responses, incoming@.responses, e),
        },
{
    let wins = is_newer(incoming_modified, existing_modified);
    match merge_responses(existing.responses, incoming.responses, f) {
        Ok(responses) => Ok(
            ConversationItem {
                conversation: merge_conversation(
                    existing.conversation,
                    incoming.conversation,
                    wins,
                ),
                responses,
                extra: union_extra(existing.extra, incoming.extra, wins),
            },
        ),
        Err(e) => Err(e),
    }
}

/// A merge never drops a response id: every id of either copy is in the
/// result.
pub proof fn law_merge_keeps_every_id(
    dest: Seq<ResponseItemView>,
    incoming: Seq<ResponseItemView>,
    enc: spec_fn(ResponseItemView) -> Seq<u8>,
    id: Seq<char>,
)
    ensures
        id_position(dest, id) >= 0 || id_position(incoming, id) >= 0 <==> id_position(
            merged_responses(dest, incoming, enc),
            id,
        ) >= 0,
    decreases incoming.len(),
{
    if incoming.len() > 0 {
        let head = merged_responses(dest, incoming.drop_last(), enc);
        law_merge_keeps_every_id(dest, incoming.drop_last(), enc, id);
        lemma_with_keeps_ids(head, incoming.last(), enc, id);
    }
}

proof fn lemma_with_keeps_ids(
    dest: Seq<ResponseItemView>,
    x: ResponseItemView,
    enc: spec_fn(ResponseItemView) -> Seq<u8>,
    id: Seq<char>,
)
    ensures
        id_position(dest, id) >= 0 || x.response._id == Some(id) <==> id_position(
            responses_with(dest, x, enc),
            id,
        ) >= 0,
{
    assert(dest.push(x).drop_last() =~= dest);
    if let Some(key) = x.response._id {
        let p = id_position(dest, key);
        lemma_id_position(dest, key);
        if p >= 0 {
            let one = ResponseItemView { extra: union(dest[p].extra, x.extra, false), ..dest[p] };
            let two = ResponseItemView { extra: union(dest[p].extra, x.extra, true), ..x };
            lemma_position_update(dest, p, one, id);
            lemma_position_update(dest, p, two, id);
        }
    }
}

/// A merge has at least the responses of the existing copy, and at most as
/// many as both together.
pub proof fn law_merge_grows(
    dest: Seq<ResponseItemView>,
    incoming: Seq<ResponseItemView>,
    enc: spec_fn(ResponseItemView) -> Seq<u8>,
)
    ensures
        dest.len() <= merged_responses(dest, incoming, enc).len() <= dest.len() + incoming.len(),
    decreases incoming.len(),
{
    if incoming.len() > 0 {
        law_merge_grows(dest, incoming.drop_last(), enc);
        let head = merged_responses(dest, incoming.drop_last(), enc);
        if let Some(id) = incoming.last().response._id {
            lemma_id_position(head, id);
        }
    }
}

/// Each place of the existing copy keeps its id in a merge.
pub proof fn law_merge_keeps_places(
    dest: Seq<ResponseItemView>,
    incoming: Seq<ResponseItemView>,
    enc: spec_fn(ResponseItemView) -> Seq<u8>,
    i: int,
)
    requires
        0 <= i < dest.len(),
    ensures
        i < merged_responses(dest, incoming, enc).len(),
        merged_responses(dest, incoming, enc)[i].response._id == dest[i].response._id,
    decreases incoming.len(),
{
    if incoming.len() > 0 {
        law_merge_keeps_places(dest, incoming.drop_last(), enc, i);
        let head = merged_responses(dest, incoming.drop_last(), enc);
        if let Some(id) = incoming.last().response._id {
            lemma_id_position(head, id);
        }
    }
}

/// The message under an id never gets shorter in a merge.
pub proof fn law_merge_keeps_the_longer_message(
    dest: Seq<ResponseItemView>,
    incoming: Seq<ResponseItemView>,
    enc: spec_fn(ResponseItemView) -> Seq<u8>,
    id: Seq<char>,
)
    requires
        id_position(dest, id) >= 0,
    ensures
        ({
            let r = merged_responses(dest, incoming, enc);
            &&& id_position(r, id) == id_position(dest, id)
            &&& capped(message_size(r[id_position(r, id)])) >= capped(
                message_size(dest[id_position(dest, id)]),
            )
        }),
    decreases incoming.len(),
{
    if incoming.len() > 0 {
        law_merge_keeps_the_longer_message(dest, incoming.drop_last(), enc, id);
        let head = merged_responses(dest, incoming.drop_last(), enc);
        let x = incoming.last();
        lemma_id_position(head, id);
        assert(head.push(x).drop_last() =~= head);
        if let Some(key) = x.response._id {
            let p = id_position(head, key);
            lemma_id_position(head, key);
            if p >= 0 {
                let one = ResponseItemView {
                    extra: union(head[p].extra, x.extra, false),
                    ..head[p]
                };
                let two = ResponseItemView { extra: union(head[p].extra, x.extra, true), ..x };
                lemma_position_update(head, p, one, id);
                lemma_position_update(head, p, two, id);
            }
        }
    }
}

/// The first `n` responses of a copy add nothing where all responses are
/// known under distinct ids.
pub proof fn law_merging_a_copy_adds_nothing(
    v: Seq<ResponseItemView>,
    n: nat,
    enc: spec_fn(ResponseItemView) -> Seq<u8>,
)
    requires
        n <= v.len(),
        forall|i: int|
            0 <= i < v.len() ==> (#[trigger] v[i]).response._id is Some && id_position(
                v,
                v[i].response._id->0,
            ) == i,
    ensures
        merged_responses(v, v.take(n as int), enc) == v,
    decreases n,
{
    if n > 0 {
        law_merging_a_copy_adds_nothing(v, (n - 1) as nat, enc);
        assert(v.take(n as int).drop_last() =~= v.take(n - 1));
        let p = n - 1;
        let x = v[p];
        assert(v.take(n as int).last() == x);
        assert(id_position(v, x.response._id->0) == p);
        law_union_with_itself(x.extra, x.extra.len());
        assert(x.extra.take(x.extra.len() as int) =~= x.extra);
        assert(v.update(p, x) =~= v);
    }
}

/// A merged conversation takes each field from its own place on either side:
/// the incoming one where it is set and wins or nothing else is there, the
/// held one otherwise. No field is lost.
pub proof fn law_merge_field_by_field(dest: ConversationView, src: ConversationView, src_wins: bool)
    ensures
        ({
            let m = merged_conversation(dest, src, src_wins);
            &&& m.anon_user_id == if src.anon_user_id is Some && (src_wins || dest.anon_user_id is None) {
                src.anon_user_id
            } else {
                dest.anon_user_id
            }
            &&& m.asset_ids == if src.asset_ids is Some && (src_wins || dest.asset_ids is None) {
                src.asset_ids
            } else {
                dest.asset_ids
            }
            &&& m.controller == if src.controller is Some && (src_wins || dest.controller is None) {
                src.controller
            } else {
                dest.controller
            }
            &&& m.create_time == if src.create_time is Some && (src_wins || dest.create_time is None) {
                src.create_time
            } else {
                dest.create_time
            }
            &&& m.id == if src.id is Some && (src_wins || dest.id is None) {
                src.id
            } else {
                dest.id
            }
            &&& m.leaf_response_id == if src.leaf_response_id is Some && (src_wins || dest.leaf_response_id is None) {
                src.leaf_response_id
            } else {
                dest.leaf_response_id
            }
            &&& m.media_types == if src.media_types is Some && (src_wins || dest.media_types is None) {
                src.media_types
            } else {
                dest.media_types
            }
            &&& m.modify_time == if src.modify_time is Some && (src_wins || dest.modify_time is None) {
                src.modify_time
            } else {
                dest.modify_time
            }
            &&& m.root_asset_id == if src.root_asset_id is Some && (src_wins || dest.root_asset_id is None) {
                src.root_asset_id
            } else {
                dest.root_asset_id
            }
            &&& m.shared_with_team == if src.shared_with_team is Some && (src_wins || dest.shared_with_team is None) {
                src.shared_with_team
            } else {
                dest.shared_with_team
            }
            &&& m.shared_with_user_ids == if src.shared_with_user_ids is Some && (src_wins || dest.shared_with_user_ids is None) {
                src.shared_with_user_ids
            } else {
                dest.shared_with_user_ids
            }
            &&& m.starred == if src.starred is Some && (src_wins || dest.starred is None) {
                src.starred
            } else {
                dest.starred
            }
            &&& m.system_prompt_id == if src.system_prompt_id is Some && (src_wins || dest.system_prompt_id is None) {
                src.system_prompt_id
            } else {
                dest.system_prompt_id
            }
            &&& m.system_prompt_name == if src.system_prompt_name is Some && (src_wins || dest.system_prompt_name is None) {
                src.system_prompt_name
            } else {
                dest.system_prompt_name
            }
            &&& m.task_result_id == if src.task_result_id is Some && (src_wins || dest.task_result_id is None) {
                src.task_result_id
            } else {
                dest.task_result_id
            }
            &&& m.team_id == if src.team_id is Some && (src_wins || dest.team_id is None) {
                src.team_id
            } else {
                dest.team_id
            }
            &&& m.temporary == if src.temporary is Some && (src_wins || dest.temporary is None) {
                src.temporary
            } else {
                dest.temporary
            }
            &&& m.user_id == if src.user_id is Some && (src_wins || dest.user_id is None) {
                src.user_id
            } else {
                dest.user_id
            }
            &&& m.x_user_id == if src.x_user_id is Some && (src_wins || dest.x_user_id is None) {
                src.x_user_id
            } else {
                dest.x_user_id
            }
            &&& m.extra == union(dest.extra, src.extra, src_wins)
        }),
{
}

/// The title and the summary of a merge: the newer text where it says
/// something, else the longer one. A text that says something never gives way
/// to one that does not.
pub proof fn law_merged_text(
    dest: ConversationView,
    src: ConversationView,
    a: Seq<char>,
    b: Seq<char>,
)
    requires
        a.len() > 0,
        b.len() > 0,
    ensures
        dest.title == Some(a) && src.title == Some(b) ==> merged_conversation(
            dest,
            src,
            true,
        ).title == Some(b),
        dest.title == Some(a) && src.title == Some(b) && byte_len(b) > byte_len(a)
            ==> merged_conversation(dest, src, false).title == Some(b),
        dest.title == Some(a) && src.title == Some(b) && byte_len(b) <= byte_len(a)
            ==> merged_conversation(dest, src, false).title == Some(a),
        dest.title == Some(a) && (src.title is None || src.title == Some(Seq::<char>::empty()))
            ==> merged_conversation(dest, src, true).title == Some(a),
        dest.title is None && src.title == Some(b) ==> merged_conversation(dest, src, false).title
            == Some(b) && merged_conversation(dest, src, true).title == Some(b),
        dest.title is Some && src.title is None ==> merged_conversation(dest, src, false).title
            == dest.title,
        dest.summary == Some(a) && src.summary == Some(b) ==> merged_conversation(
            dest,
            src,
            true,
        ).summary == Some(b),
        dest.summary == Some(a) && src.summary == Some(b) && byte_len(b) > byte_len(a)
            ==> merged_conversation(dest, src, false).summary == Some(b),
        dest.summary == Some(a) && src.summary == Some(b) && byte_len(b) <= byte_len(a)
            ==> merged_conversation(dest, src, false).summary == Some(a),
        dest.summary == Some(a) && src.summary is None ==> merged_conversation(
            dest,
            src,
            true,
        ).summary == Some(a),
        dest.summary is None && src.summary == Some(b) ==> merged_conversation(
            dest,
            src,
            false,
        ).summary == Some(b),
{
}

/// An incoming copy is newer when its time sorts behind the held one, or when
/// only it has a time.
pub proof fn law_newer(a: Seq<char>, b: Seq<char>, x: Option<Stamp>)
    ensures
        newer(Some(Stamp::Iso(a)), Some(Stamp::Iso(b))) <==> before(b, a),
        newer(Some(Stamp::Iso(a)), None),
        !newer(None, x),
        !newer(x, x),
        newer(Some(Stamp::Other(Atom::Text(a))), Some(Stamp::Other(Atom::Text(b)))) <==> before(
            "other:"@ + b,
            "other:"@ + a,
        ),
{
    if x is Some {
        law_string_order(stamp_key(x->0), stamp_key(x->0), stamp_key(x->0));
    }
}

/// The size of a message is the bytes of its texts, with one for each number
/// and truth value, however deep they stand.
pub proof fn law_message_size(
    s: Seq<char>,
    a: Seq<Atom>,
    b: Seq<Atom>,
    x: Atom,
    fs: Seq<(Seq<char>, Atom)>,
    key: Seq<char>,
    n: i64,
    t: bool,
)
    ensures
        atom_size(Atom::Text(s)) == byte_len(s),
        atom_size(Atom::I64(n)) == 1,
        atom_size(Atom::Bool(t)) == 1,
        atom_size(Atom::Null) == 0,
        atom_size(Atom::Arr(a + b)) == atom_size(Atom::Arr(a)) + atom_size(Atom::Arr(b)),
        atom_size(Atom::Arr(seq![x])) == atom_size(x),
        atom_size(Atom::Obj(fs.push((key, x)))) == atom_size(Atom::Obj(fs)) + atom_size(x),
        atom_size(Atom::Obj(Seq::empty())) == 0,
{
    lemma_array_size(a, b);
    reveal_with_fuel(array_size, 2);
    assert(seq![x].drop_last() =~= Seq::<Atom>::empty());
    assert(array_size(seq![x]) == array_size(seq![x].drop_last()) + atom_size(x));
    assert(atom_size(Atom::Arr(seq![x])) == array_size(seq![x]));
    assert(fs.push((key, x)).drop_last() =~= fs);
}

proof fn lemma_array_size(a: Seq<Atom>, b: Seq<Atom>)
    ensures
        array_size(a + b) == array_size(a) + array_size(b),
    decreases b.len(),
{
    if b.len() == 0 {
        assert(a + b =~= a);
    } else {
        lemma_array_size(a, b.drop_last());
        assert((a + b).drop_last() =~= a + b.drop_last());
    }
}

/// What becomes of one incoming response: without an id, or with a new one, it
/// is added. With a known id the longer message stays in the place of that
/// response, and a shorter one that says something else is added.
pub proof fn law_incoming_response(
    dest: Seq<ResponseItemView>,
    x: ResponseItemView,
    enc: spec_fn(ResponseItemView) -> Seq<u8>,
    p: int,
    id: Seq<char>,
)
    ensures
        ({
            let r = merged_responses(dest, seq![x], enc);
            &&& x.response._id is None ==> r == dest.push(x)
            &&& x.response._id == Some(id) && (forall|k: int|
                0 <= k < dest.len() ==> (#[trigger] dest[k]).response._id != Some(id)) ==> r
                == dest.push(x)
            &&& x.response._id == Some(id) && 0 <= p < dest.len() && dest[p].response._id == Some(id)
                && (forall|k: int|
                0 <= k < p ==> (#[trigger] dest[k]).response._id != Some(id)) && root_of(enc(dest[p]))
                != root_of(enc(x)) ==> {
                &&& capped(message_size(x)) > capped(message_size(dest[p])) ==> r.len() == dest.len()
                    && r[p].response == x.response && (forall|k: int|
                    0 <= k < dest.len() && k != p ==> #[trigger] r[k] == dest[k])
                &&& capped(message_size(x)) <= capped(message_size(dest[p])) ==> r == dest.push(x)
            }
            &&& x.response._id == Some(id) && 0 <= p < dest.len() && dest[p].response._id == Some(id)
                && (forall|k: int|
                0 <= k < p ==> (#[trigger] dest[k]).response._id != Some(id)) && root_of(enc(dest[p]))
                == root_of(enc(x)) ==> r.len() == dest.len() && r[p].response == dest[p].response
        }),
{
    reveal_with_fuel(merged_responses, 2);
    assert(seq![x].drop_last() =~= Seq::<ResponseItemView>::empty());
    lemma_first_position(dest, id, p);
}

proof fn lemma_first_position(v: Seq<ResponseItemView>, id: Seq<char>, p: int)
    ensures
        (forall|k: int| 0 <= k < v.len() ==> (#[trigger] v[k]).response._id != Some(id))
            ==> id_position(v, id) == -1,
        0 <= p < v.len() && v[p].response._id == Some(id) && (forall|k: int|
            0 <= k < p ==> (#[trigger] v[k]).response._id != Some(id)) ==> id_position(v, id) == p,
    decreases v.len(),
{
    if v.len() > 0 {
        let init = v.drop_last();
        assert(forall|k: int| 0 <= k < init.len() ==> #[trigger] init[k] == v[k]);
        lemma_first_position(init, id, p);
        if p == v.len() - 1 && (forall|k: int|
            0 <= k < p ==> (#[trigger] v[k]).response._id != Some(id)) {
            assert(forall|k: int|
                0 <= k < init.len() ==> (#[trigger] init[k]).response._id != Some(id));
        }
    }
}

} // verus!
