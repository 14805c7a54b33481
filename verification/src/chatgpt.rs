//! ChatGPT exports: conversations as trees of message nodes.
use vstd::hash_set::StringHashSet;
use vstd::prelude::*;

use crate::order::ascending;
use crate::pairs::{
    keys, law_placed_is_found, law_union_loses_nothing, lookup, placed, union,
};
use crate::paths::opt_view;
use crate::records::{
    atom_to_timestamp, bare, bare_response, empty_conversation, empty_response, response_views,
    stamp_of, Conversation, ConversationItem, ConversationView, ItemView, Response, ResponseItem,
    ResponseItemView, ResponseView,
};
use crate::schema::{atoms, lemma_atom, opt_atom, ref_atom, Atom, ExtraMap, JsonAtom};
use crate::search::copied_opt;
use crate::sqlite::text_atom;
use crate::telegram::{
    id_text, lemma_lookup_smaller, opt_id, own_text, some_text, stringify_id,
};
use crate::text::{same_str, views};

verus! {

/// The text of a part: a string, the string under `text`, or the parts of an
/// array.
pub open spec fn part_text(a: Atom) -> Seq<char>
    decreases a,
{
    match a {
        Atom::Text(s) => s,
        Atom::Obj(fs) => match lookup(fs, "text"@) {
            Some(Atom::Text(s)) => s,
            _ => Seq::empty(),
        },
        Atom::Arr(v) => parts_text(v),
        _ => Seq::empty(),
    }
}

/// The texts of parts, one after the other.
pub open spec fn parts_text(v: Seq<Atom>) -> Seq<char>
    decreases v,
{
    if v.len() == 0 {
        Seq::empty()
    } else {
        parts_text(v.drop_last()) + part_text(v[v.len() - 1])
    }
}

/// The text of a message's content: a string, parts, or what an object has
/// under `parts` or `text`.
pub open spec fn content_text(a: Atom) -> Seq<char>
    decreases a,
{
    match a {
        Atom::Text(s) => s,
        Atom::Arr(v) => parts_text(v),
        Atom::Obj(fs) => {
            proof {
                lemma_lookup_smaller(fs, "parts"@);
                lemma_lookup_smaller(fs, "text"@);
            }
            match lookup(fs, "parts"@) {
                Some(x) => content_text(x),
                None => match lookup(fs, "text"@) {
                    Some(x) => content_text(x),
                    None => Seq::empty(),
                },
            }
        },
        _ => Seq::empty(),
    }
}

/// Appends the texts of the parts of an array.
fn push_parts(out: &mut String, parts: &Vec<JsonAtom>)
    ensures
        final(out)@ == old(out)@ + parts_text(atoms(parts@)),
    decreases atoms(parts@),
{
    let ghost start = out@;
    let ghost all = atoms(parts@);
    let mut i: usize = 0;
    proof {
        assert(all.take(0) =~= Seq::<Atom>::empty());
        assert(start + parts_text(all.take(0)) =~= start);
    }
    while i < parts.len()
        invariant
            i <= parts@.len(),
            all == atoms(parts@),
            out@ == start + parts_text(all.take(i as int)),
        decreases parts.len() - i,
    {
        proof {
            assert(all.take(i + 1).drop_last() =~= all.take(i as int));
            assert(decreases_to!(all => all[i as int]));
            assert(all[i as int] == parts@[i as int]@);
        }
        push_part_text(out, &parts[i]);
        proof {
            assert(out@ =~= start + parts_text(all.take(i + 1)));
        }
        i = i + 1;
    }
    proof {
        assert(all.take(all.len() as int) =~= all);
    }
}

/// Appends the text of a part.
fn push_part_text(out: &mut String, a: &JsonAtom)
    ensures
        final(out)@ == old(out)@ + part_text(a@),
    decreases a@,
{
    let ghost start = out@;
    match a {
        JsonAtom::String(s) => {
            out.push_str(s);
        },
        JsonAtom::Object(fields) => {
            proof {
                lemma_atom(arbitrary(), *fields);
                assert(start + Seq::<char>::empty() =~= start);
            }
            if let Some(JsonAtom::String(s)) = fields.get("text") {
                out.push_str(s);
            }
        },
        JsonAtom::Array(parts) => {
            proof {
                lemma_atom(*parts, ExtraMap { entries: arbitrary() });
                assert(decreases_to!(a@ => a@->Arr_0));
            }
            push_parts(out, parts);
        },
        _ => {
            proof {
                assert(start + Seq::<char>::empty() =~= start);
            }
        },
    }
}

/// Appends the text of a message's content.
fn push_content_text(out: &mut String, a: &JsonAtom)
    ensures
        final(out)@ == old(out)@ + content_text(a@),
    decreases a@,
{
    let ghost start = out@;
    match a {
        JsonAtom::String(s) => {
            out.push_str(s);
        },
        JsonAtom::Array(parts) => {
            proof {
                lemma_atom(*parts, ExtraMap { entries: arbitrary() });
            }
            push_parts(out, parts);
        },
        JsonAtom::Object(fields) => {
            proof {
                lemma_atom(arbitrary(), *fields);
                lemma_lookup_smaller(fields@, "parts"@);
                lemma_lookup_smaller(fields@, "text"@);
                assert(decreases_to!(a@ => a@->Obj_0));
                assert(start + Seq::<char>::empty() =~= start);
            }
            if let Some(parts) = fields.get("parts") {
                push_content_text(out, parts);
            } else if let Some(text) = fields.get("text") {
                push_content_text(out, text);
            }
        },
        _ => {
            proof {
                assert(start + Seq::<char>::empty() =~= start);
            }
        },
    }
}

/// The text of a message's content, unless there is none.
pub open spec fn body_text(content: Option<Atom>) -> Option<Seq<char>> {
    match content {
        Some(a) => some_text(content_text(a)),
        None => None,
    }
}

/// The text of a message's content, unless there is none.
pub fn content_parts_text(content: Option<&JsonAtom>) -> (r: Option<String>)
    ensures
        opt_view(r) == body_text(ref_atom(content)),
{
    match content {
        Some(a) => {
            let mut out = String::new();
            push_content_text(&mut out, a);
            proof {
                assert(out@ =~= content_text(a@));
            }
            if out.is_empty() {
                None
            } else {
                Some(out)
            }
        },
        None => None,
    }
}

/// The role of an author: a string, or the string under `role`.
pub open spec fn role_of(author: Option<Atom>) -> Option<Seq<char>> {
    match author {
        Some(Atom::Obj(fs)) => own_text(lookup(fs, "role"@)),
        _ => own_text(author),
    }
}

fn own_text_of(a: Option<&JsonAtom>) -> (r: Option<String>)
    ensures
        opt_view(r) == own_text(ref_atom(a)),
{
    match a {
        Some(JsonAtom::String(s)) => if s.is_empty() {
            None
        } else {
            Some(s.clone())
        },
        Some(_) => None,
        None => None,
    }
}

/// The role of an author.
pub fn author_role(author: Option<&JsonAtom>) -> (r: Option<String>)
    ensures
        opt_view(r) == role_of(ref_atom(author)),
{
    match author {
        Some(JsonAtom::Object(fields)) => {
            proof {
                lemma_atom(arbitrary(), *fields);
            }
            own_text_of(fields.get("role"))
        },
        _ => own_text_of(author),
    }
}

/// The id of the parent of a node.
pub open spec fn parent_id(node: Option<Atom>) -> Option<Seq<char>> {
    match node {
        Some(Atom::Obj(fs)) => own_text(lookup(fs, "parent"@)),
        _ => None,
    }
}

/// The id of the parent of a node.
pub fn node_parent(node: Option<&JsonAtom>) -> (r: Option<String>)
    ensures
        opt_view(r) == parent_id(ref_atom(node)),
{
    match node {
        Some(JsonAtom::Object(fields)) => {
            proof {
                lemma_atom(arbitrary(), *fields);
            }
            own_text_of(fields.get("parent"))
        },
        Some(_) => None,
        None => None,
    }
}

/// A node without children.
pub open spec fn is_leaf(node: Atom) -> bool {
    match node {
        Atom::Obj(fs) => match lookup(fs, "children"@) {
            Some(Atom::Arr(v)) => v.len() == 0,
            _ => true,
        },
        _ => false,
    }
}

fn node_is_leaf(node: &JsonAtom) -> (r: bool)
    ensures
        r == is_leaf(node@),
{
    match node {
        JsonAtom::Object(fields) => {
            proof {
                lemma_atom(arbitrary(), *fields);
            }
            match fields.get("children") {
                Some(JsonAtom::Array(v)) => {
                    proof {
                        lemma_atom(*v, ExtraMap { entries: arbitrary() });
                    }
                    v.len() == 0
                },
                _ => true,
            }
        },
        _ => false,
    }
}

/// The last node without children.
pub open spec fn leaf(nodes: Seq<(Seq<char>, Atom)>) -> Option<Seq<char>>
    decreases nodes.len(),
{
    if nodes.len() == 0 {
        None
    } else if is_leaf(nodes.last().1) {
        Some(nodes.last().0)
    } else {
        leaf(nodes.drop_last())
    }
}

/// The last node without children.
pub fn find_leaf(nodes: &ExtraMap) -> (r: Option<String>)
    ensures
        opt_view(r) == leaf(nodes@),
{
    let ghost all = nodes@;
    let mut i: usize = nodes.entries.len();
    proof {
        assert(all.take(all.len() as int) =~= all);
    }
    while i > 0
        invariant
            i <= nodes.entries@.len(),
            all == nodes@,
            leaf(all) == leaf(all.take(i as int)),
        decreases i,
    {
        proof {
            assert(all.take(i as int).drop_last() =~= all.take(i - 1));
            assert(all.take(i as int).last() == all[i - 1]);
        }
        if node_is_leaf(&nodes.entries[i - 1].1) {
            return Some(nodes.entries[i - 1].0.clone());
        }
        i = i - 1;
    }
    None
}

/// `chain` is the way from a node to the root: each node is followed by its
/// parent, and no node comes twice.
pub open spec fn is_climb(
    nodes: Seq<(Seq<char>, Atom)>,
    start: Option<Seq<char>>,
    chain: Seq<Seq<char>>,
) -> bool {
    &&& chain.no_duplicates()
    &&& start is None ==> chain.len() == 0
    &&& start is Some ==> chain.len() > 0 && chain[0] == start->0
    &&& forall|i: int|
        0 <= i < chain.len() - 1 ==> parent_id(lookup(nodes, #[trigger] chain[i])) == Some(
            chain[i + 1],
        )
    &&& chain.len() > 0 ==> {
        let next = parent_id(lookup(nodes, chain.last()));
        next is None || chain.contains(next->0)
    }
}

/// A climb up to here: it may go on.
pub open spec fn climbing(
    nodes: Seq<(Seq<char>, Atom)>,
    start: Option<Seq<char>>,
    chain: Seq<Seq<char>>,
    cursor: Option<Seq<char>>,
) -> bool {
    &&& chain.no_duplicates()
    &&& chain.len() == 0 ==> cursor == start
    &&& chain.len() > 0 ==> start == Some(chain[0])
    &&& chain.len() > 0 ==> cursor == parent_id(lookup(nodes, chain.last()))
    &&& forall|i: int|
        0 <= i < chain.len() - 1 ==> parent_id(lookup(nodes, #[trigger] chain[i])) == Some(
            chain[i + 1],
        )
}

/// There is one way from a node to the root.
pub proof fn law_climb_is_unique(
    nodes: Seq<(Seq<char>, Atom)>,
    start: Option<Seq<char>>,
    a: Seq<Seq<char>>,
    b: Seq<Seq<char>>,
)
    requires
        is_climb(nodes, start, a),
        is_climb(nodes, start, b),
    ensures
        a == b,
{
    let n = if a.len() <= b.len() {
        a.len()
    } else {
        b.len()
    };
    lemma_climbs_agree(nodes, start, a, b, n);
    if a.len() < b.len() {
        let m = a.len() - 1;
        assert(a[m] == b[m]);
        assert(parent_id(lookup(nodes, b[m])) == Some(b[m + 1]));
        assert(a.contains(b[m + 1]));
        let k = choose|k: int| 0 <= k < a.len() && a[k] == b[m + 1];
        assert(b[k] == b[m + 1]);
    }
    if b.len() < a.len() {
        let m = b.len() - 1;
        assert(a[m] == b[m]);
        assert(parent_id(lookup(nodes, a[m])) == Some(a[m + 1]));
        assert(b.contains(a[m + 1]));
        let k = choose|k: int| 0 <= k < b.len() && b[k] == a[m + 1];
        assert(a[k] == a[m + 1]);
    }
    assert(a =~= b);
}

proof fn lemma_climbs_agree(
    nodes: Seq<(Seq<char>, Atom)>,
    start: Option<Seq<char>>,
    a: Seq<Seq<char>>,
    b: Seq<Seq<char>>,
    n: nat,
)
    requires
        is_climb(nodes, start, a),
        is_climb(nodes, start, b),
        n <= a.len(),
        n <= b.len(),
    ensures
        forall|i: int| 0 <= i < n ==> #[trigger] a[i] == b[i],
    decreases n,
{
    if n > 1 {
        lemma_climbs_agree(nodes, start, a, b, (n - 1) as nat);
        assert(a[n - 2] == b[n - 2]);
        assert(parent_id(lookup(nodes, a[n - 2])) == Some(a[n - 1]));
        assert(parent_id(lookup(nodes, b[n - 2])) == Some(b[n - 1]));
    }
}

proof fn lemma_found_is_key(nodes: Seq<(Seq<char>, Atom)>, key: Seq<char>)
    requires
        lookup(nodes, key) is Some,
    ensures
        keys(nodes).contains(key),
    decreases nodes.len(),
{
    if nodes.last().0 == key {
        assert(keys(nodes)[nodes.len() - 1] == key);
    } else {
        lemma_found_is_key(nodes.drop_last(), key);
        let k = choose|k: int|
            0 <= k < keys(nodes.drop_last()).len() && keys(nodes.drop_last())[k] == key;
        assert(keys(nodes)[k] == key);
    }
}

/// A climb is no longer than there are nodes, and one.
proof fn lemma_climb_short(
    nodes: Seq<(Seq<char>, Atom)>,
    start: Option<Seq<char>>,
    chain: Seq<Seq<char>>,
    cursor: Option<Seq<char>>,
)
    requires
        climbing(nodes, start, chain, cursor),
    ensures
        chain.len() <= nodes.len() + 1,
{
    if chain.len() > 0 {
        let known = chain.drop_last();
        let ks = keys(nodes);
        assert(known.no_duplicates());
        known.unique_seq_to_set();
        vstd::seq_lib::seq_to_set_is_finite(ks);
        vstd::seq_lib::seq_to_set_is_finite(known);
        assert forall|k: Seq<char>| known.to_set().contains(k) implies ks.to_set().contains(k) by {
            let i = choose|i: int| 0 <= i < known.len() && known[i] == k;
            assert(parent_id(lookup(nodes, chain[i])) == Some(chain[i + 1]));
            lemma_found_is_key(nodes, chain[i]);
        }
        vstd::set_lib::lemma_len_subset(known.to_set(), ks.to_set());
        ks.lemma_cardinality_of_set();
    }
}

/// The way from a node to the root.
fn climb(nodes: &ExtraMap, start: Option<String>) -> (r: Vec<String>)
    ensures
        is_climb(nodes@, opt_view(start), views(r@)),
{
    let ghost first = opt_view(start);
    let mut chain: Vec<String> = Vec::new();
    let mut seen = StringHashSet::new();
    let mut cursor = start;
    let limit: usize = nodes.entries.len();
    loop
        invariant
            limit == nodes@.len(),
            climbing(nodes@, first, views(chain@), opt_view(cursor)),
            forall|s: Seq<char>| #[trigger] seen@.contains(s) <==> views(chain@).contains(s),
        ensures
            is_climb(nodes@, first, views(chain@)),
        decreases limit + 2 - chain@.len(),
    {
        proof {
            lemma_climb_short(nodes@, first, views(chain@), opt_view(cursor));
        }
        let id = match &cursor {
            Some(id) => id.clone(),
            None => {
                break;
            },
        };
        if seen.contains(&id) {
            break;
        }
        let ghost held = views(chain@);
        seen.insert(id.clone());
        chain.push(id.clone());
        cursor = node_parent(nodes.get(&id));
        proof {
            let now = views(chain@);
            assert(now =~= held.push(id@));
            assert forall|s: Seq<char>| now.contains(s) <==> held.contains(s) || s == id@ by {
                if held.contains(s) {
                    let k = choose|k: int| 0 <= k < held.len() && held[k] == s;
                    assert(now[k] == s);
                }
                assert(now[held.len() as int] == id@);
            }
            assert(!held.contains(id@));
            assert forall|i: int, j: int| 0 <= i < now.len() && 0 <= j < now.len() && i != j implies
                now[i] != now[j] by {
                if i < held.len() && j < held.len() {
                    assert(held[i] != held[j]);
                } else if i < held.len() {
                    assert(held.contains(held[i]));
                } else if j < held.len() {
                    assert(held.contains(held[j]));
                }
            }
        }
    }
    chain
}

/// The keys of `nodes` that are not in `chain`, in order.
pub open spec fn others(nodes: Seq<(Seq<char>, Atom)>, chain: Seq<Seq<char>>) -> Seq<Seq<char>>
    decreases nodes.len(),
{
    if nodes.len() == 0 {
        Seq::empty()
    } else if chain.contains(nodes.last().0) {
        others(nodes.drop_last(), chain)
    } else {
        others(nodes.drop_last(), chain).push(nodes.last().0)
    }
}

/// The order of message nodes: from the root down to the current node, then
/// the others.
pub open spec fn node_order(nodes: Seq<(Seq<char>, Atom)>, chain: Seq<Seq<char>>) -> Seq<Seq<char>> {
    chain.reverse() + others(nodes, chain)
}

/// The node where reading ends: the current one, else the last leaf.
pub open spec fn climb_start(
    nodes: Seq<(Seq<char>, Atom)>,
    current: Option<Seq<char>>,
) -> Option<Seq<char>> {
    if current is Some {
        current
    } else {
        leaf(nodes)
    }
}

/// The order of message nodes.
pub fn message_node_order(nodes: &ExtraMap, current_node: Option<String>) -> (r: Vec<String>)
    ensures
        exists|chain: Seq<Seq<char>>| #[trigger]
            is_climb(nodes@, climb_start(nodes@, opt_view(current_node)), chain) && views(r@)
                == node_order(nodes@, chain),
{
    let ghost all = nodes@;
    let ghost first = climb_start(nodes@, opt_view(current_node));
    let start = if current_node.is_some() {
        current_node
    } else {
        find_leaf(nodes)
    };
    let chain = climb(nodes, start);
    let ghost way = views(chain@);
    let mut out: Vec<String> = Vec::new();
    let mut n: usize = chain.len();
    proof {
        assert(views(out@) =~= way.skip(n as int).reverse());
    }
    while n > 0
        invariant
            n <= chain@.len(),
            way == views(chain@),
            views(out@) == way.skip(n as int).reverse(),
        decreases n,
    {
        let ghost held = views(out@);
        out.push(chain[n - 1].clone());
        proof {
            assert(views(out@) =~= held.push(way[n - 1]));
            assert(way.skip(n - 1).reverse() =~= way.skip(n as int).reverse().push(way[n - 1]));
        }
        n = n - 1;
    }
    let ghost head = way.reverse();
    let mut i: usize = 0;
    proof {
        assert(way.skip(0) =~= way);
        assert(all.take(0) =~= Seq::<(Seq<char>, Atom)>::empty());
        assert(head + others(all.take(0), way) =~= head);
    }
    while i < nodes.entries.len()
        invariant
            i <= nodes.entries@.len(),
            all == nodes@,
            way == views(chain@),
            views(out@) == head + others(all.take(i as int), way),
        decreases nodes.entries.len() - i,
    {
        proof {
            assert(all.take(i + 1).drop_last() =~= all.take(i as int));
            assert(all.take(i + 1).last() == all[i as int]);
        }
        let key = &nodes.entries[i].0;
        if !has_text(&chain, key) {
            let ghost held = views(out@);
            out.push(key.clone());
            proof {
                assert(views(out@) =~= held.push(key@));
                assert(views(out@) =~= head + others(all.take(i + 1), way));
            }
        }
        i = i + 1;
    }
    proof {
        assert(all.take(all.len() as int) =~= all);
        assert(is_climb(nodes@, first, way));
    }
    out
}

/// Whether a text is in a list.
fn has_text(v: &Vec<String>, s: &str) -> (r: bool)
    ensures
        r == views(v@).contains(s@),
{
    let ghost all = views(v@);
    let mut i: usize = 0;
    while i < v.len()
        invariant
            i <= v@.len(),
            all == views(v@),
            forall|k: int| 0 <= k < i ==> #[trigger] all[k] != s@,
        decreases v.len() - i,
    {
        if same_str(&v[i], s) {
            proof {
                assert(all[i as int] == s@);
            }
            return true;
        }
        i = i + 1;
    }
    false
}

/// The response of a message in a node. Keys of both stay as leftover keys.
pub open spec fn node_message(
    node: Seq<(Seq<char>, Atom)>,
    msg: Seq<(Seq<char>, Atom)>,
    conversation: Option<Seq<char>>,
) -> ResponseItemView {
    let id = opt_id(lookup(msg, "id"@));
    bare(
        ResponseView {
            _id: if id is Some {
                id
            } else {
                opt_id(lookup(node, "id"@))
            },
            conversation_id: conversation,
            message: text_atom(body_text(lookup(msg, "content"@))),
            sender: role_of(lookup(msg, "author"@)),
            create_time: match lookup(msg, "create_time"@) {
                Some(a) => Some(stamp_of(a)),
                None => None,
            },
            extra: union(union(Seq::empty(), node, true), msg, true),
            ..empty_response()
        },
    )
}

/// The response of a node, when it has a message.
pub open spec fn node_response(
    nodes: Seq<(Seq<char>, Atom)>,
    id: Seq<char>,
    conversation: Option<Seq<char>>,
) -> Option<ResponseItemView> {
    match lookup(nodes, id) {
        Some(Atom::Obj(node)) => match lookup(node, "message"@) {
            Some(Atom::Obj(msg)) => Some(node_message(node, msg, conversation)),
            _ => None,
        },
        _ => None,
    }
}

/// The responses of nodes, in order.
pub open spec fn node_responses(
    nodes: Seq<(Seq<char>, Atom)>,
    order: Seq<Seq<char>>,
    conversation: Option<Seq<char>>,
) -> Seq<ResponseItemView>
    decreases order.len(),
{
    if order.len() == 0 {
        Seq::empty()
    } else {
        let head = node_responses(nodes, order.drop_last(), conversation);
        match node_response(nodes, order.last(), conversation) {
            Some(x) => head.push(x),
            None => head,
        }
    }
}

fn id_under(fields: &ExtraMap) -> (r: Option<String>)
    ensures
        opt_view(r) == opt_id(lookup(fields@, "id"@)),
{
    match fields.get("id") {
        Some(a) => stringify_id(a),
        None => None,
    }
}

/// The response of a message in a node.
pub fn message_to_response(
    node: &ExtraMap,
    msg: &ExtraMap,
    conversation_id: &Option<String>,
) -> (r: ResponseItem)
    ensures
        r@ == node_message(node@, msg@, opt_view(*conversation_id)),
{
    let message = match content_parts_text(msg.get("content")) {
        Some(s) => Some(JsonAtom::String(s)),
        None => None,
    };
    let sender = author_role(msg.get("author"));
    let own = id_under(msg);
    let id = if own.is_some() {
        own
    } else {
        id_under(node)
    };
    let create_time = match msg.get("create_time") {
        Some(a) => Some(atom_to_timestamp(a.copied())),
        None => None,
    };
    let mut extra = ExtraMap::new();
    extra.union_with(node.copied(), true);
    extra.union_with(msg.copied(), true);
    bare_response(
        Response {
            _id: id,
            conversation_id: copied_opt(conversation_id),
            message,
            sender,
            create_time,
            extra,
            ..Default::default()
        },
    )
}

/// `responses` are those of a conversation tree.
pub open spec fn tree_responses(
    mapping: Option<Atom>,
    current: Option<Seq<char>>,
    conversation: Option<Seq<char>>,
    responses: Seq<ResponseItemView>,
) -> bool {
    match mapping {
        Some(Atom::Obj(nodes)) => exists|chain: Seq<Seq<char>>| #[trigger]
            is_climb(nodes, climb_start(nodes, current), chain) && responses == node_responses(
                nodes,
                node_order(nodes, chain),
                conversation,
            ),
        _ => responses.len() == 0,
    }
}

/// The responses of a conversation tree.
pub fn mapping_to_responses(
    mapping: &Option<JsonAtom>,
    current_node: Option<String>,
    conversation_id: &Option<String>,
) -> (r: Vec<ResponseItem>)
    ensures
        tree_responses(
            opt_atom(*mapping),
            opt_view(current_node),
            opt_view(*conversation_id),
            response_views(r@),
        ),
{
    let mut out: Vec<ResponseItem> = Vec::new();
    match mapping {
        Some(JsonAtom::Object(nodes)) => {
            proof {
                lemma_atom(arbitrary(), *nodes);
            }
            let ghost start = climb_start(nodes@, opt_view(current_node));
            let order = message_node_order(nodes, current_node);
            let ghost all = views(order@);
            let ghost cid = opt_view(*conversation_id);
            let mut i: usize = 0;
            proof {
                assert(all.take(0) =~= Seq::<Seq<char>>::empty());
                assert(response_views(out@) =~= Seq::<ResponseItemView>::empty());
            }
            while i < order.len()
                invariant
                    i <= order@.len(),
                    all == views(order@),
                    cid == opt_view(*conversation_id),
                    response_views(out@) == node_responses(nodes@, all.take(i as int), cid),
                decreases order.len() - i,
            {
                proof {
                    assert(all.take(i + 1).drop_last() =~= all.take(i as int));
                    assert(all.take(i + 1).last() == order@[i as int]@);
                }
                if let Some(JsonAtom::Object(node)) = nodes.get(&order[i]) {
                    proof {
                        lemma_atom(arbitrary(), *node);
                    }
                    if let Some(JsonAtom::Object(msg)) = node.get("message") {
                        proof {
                            lemma_atom(arbitrary(), *msg);
                        }
                        let ghost held = response_views(out@);
                        let x = message_to_response(node, msg, conversation_id);
                        out.push(x);
                        proof {
                            assert(response_views(out@) =~= held.push(x@));
                        }
                    }
                }
                i = i + 1;
            }
            proof {
                assert(all.take(all.len() as int) =~= all);
                let chain = choose|chain: Seq<Seq<char>>| #[trigger]
                    is_climb(nodes@, start, chain) && all == node_order(nodes@, chain);
                assert(is_climb(nodes@, start, chain));
            }
            out
        },
        _ => out,
    }
}

/// What has been read of a conversation.
pub struct ChatGptConvo {
    pub title: Option<String>,
    pub create_time: Option<JsonAtom>,
    pub conversation_id: Option<String>,
    pub mapping: Option<JsonAtom>,
    pub current_node: Option<String>,
    pub extra: ExtraMap,
}

/// What has been read of a conversation.
#[verifier::ext_equal]
pub struct ConvoView {
    pub title: Option<Seq<char>>,
    pub create_time: Option<Atom>,
    pub conversation_id: Option<Seq<char>>,
    pub mapping: Option<Atom>,
    pub current_node: Option<Seq<char>>,
    pub extra: Seq<(Seq<char>, Atom)>,
}

impl View for ChatGptConvo {
    type V = ConvoView;

    open spec fn view(&self) -> ConvoView {
        ConvoView {
            title: opt_view(self.title),
            create_time: opt_atom(self.create_time),
            conversation_id: opt_view(self.conversation_id),
            mapping: opt_atom(self.mapping),
            current_node: opt_view(self.current_node),
            extra: self.extra@,
        }
    }
}

/// A conversation after one more value. Every key stays as a leftover key.
pub open spec fn convo_with(c: ConvoView, key: Seq<char>, a: Atom) -> ConvoView {
    let extra = placed(c.extra, key, a);
    if key == "title"@ {
        ConvoView { title: own_text(Some(a)), extra, ..c }
    } else if key == "create_time"@ {
        ConvoView { create_time: Some(a), extra, ..c }
    } else if key == "conversation_id"@ {
        ConvoView { conversation_id: id_text(a), extra, ..c }
    } else if key == "mapping"@ {
        ConvoView { mapping: Some(a), extra, ..c }
    } else if key == "current_node"@ {
        ConvoView { current_node: own_text(Some(a)), extra, ..c }
    } else {
        ConvoView { extra, ..c }
    }
}

/// `item` is the conversation.
pub open spec fn is_convo_item(c: ConvoView, item: ItemView) -> bool {
    &&& item.conversation == (ConversationView {
        id: c.conversation_id,
        title: c.title,
        create_time: match c.create_time {
            Some(a) => Some(stamp_of(a)),
            None => None,
        },
        extra: c.extra,
        ..empty_conversation()
    })
    &&& item.extra.len() == 0
    &&& tree_responses(c.mapping, c.current_node, c.conversation_id, item.responses)
}

impl ChatGptConvo {
    /// Nothing read yet.
    pub fn new() -> (r: ChatGptConvo)
        ensures
            r@ == (ConvoView {
                title: None,
                create_time: None,
                conversation_id: None,
                mapping: None,
                current_node: None,
                extra: Seq::empty(),
            }),
    {
        ChatGptConvo {
            title: None,
            create_time: None,
            conversation_id: None,
            mapping: None,
            current_node: None,
            extra: ExtraMap::new(),
        }
    }

    /// Reads one more value.
    pub fn value(&mut self, key: String, a: JsonAtom)
        ensures
            final(self)@ == convo_with(old(self)@, key@, a@),
    {
        if same_str(&key, "title") {
            self.title = own_text_of(Some(&a));
        } else if same_str(&key, "create_time") {
            self.create_time = Some(a.copied());
        } else if same_str(&key, "conversation_id") {
            self.conversation_id = stringify_id(&a);
        } else if same_str(&key, "mapping") {
            self.mapping = Some(a.copied());
        } else if same_str(&key, "current_node") {
            self.current_node = own_text_of(Some(&a));
        }
        self.extra.insert(key, a);
    }

    /// The conversation with its responses.
    pub fn into_item(self) -> (r: ConversationItem)
        ensures
            is_convo_item(self@, r@),
    {
        let responses = mapping_to_responses(
            &self.mapping,
            self.current_node,
            &self.conversation_id,
        );
        let create_time = match self.create_time {
            Some(a) => Some(atom_to_timestamp(a)),
            None => None,
        };
        ConversationItem {
            conversation: Conversation {
                id: self.conversation_id,
                title: self.title,
                create_time,
                extra: self.extra,
                ..Default::default()
            },
            responses,
            extra: ExtraMap::new(),
        }
    }
}

/// The text of a content: a string is its own text, parts follow each other in
/// order, an object part gives its `text`, and a content object gives its
/// `parts`, else its `text`.
pub proof fn law_content_text(
    a: Seq<Atom>,
    b: Seq<Atom>,
    s: Seq<char>,
    fs: Seq<(Seq<char>, Atom)>,
)
    ensures
        parts_text(a + b) == parts_text(a) + parts_text(b),
        parts_text(seq![Atom::Text(s)]) == s,
        lookup(fs, "text"@) == Some(Atom::Text(s)) ==> parts_text(seq![Atom::Obj(fs)]) == s,
        parts_text(seq![Atom::Arr(a)]) == parts_text(a),
        content_text(Atom::Text(s)) == s,
        content_text(Atom::Arr(a)) == parts_text(a),
        lookup(fs, "parts"@) == Some(Atom::Arr(a)) ==> content_text(Atom::Obj(fs)) == parts_text(a),
        lookup(fs, "parts"@) is None && lookup(fs, "text"@) == Some(Atom::Text(s)) ==> content_text(
            Atom::Obj(fs),
        ) == s,
    decreases b.len(),
{
    reveal_with_fuel(parts_text, 2);
    reveal_with_fuel(content_text, 2);
    let (x, y, z) = (seq![Atom::Text(s)], seq![Atom::Obj(fs)], seq![Atom::Arr(a)]);
    let none = Seq::<Atom>::empty();
    assert(x.drop_last() =~= none && y.drop_last() =~= none && z.drop_last() =~= none);
    assert(parts_text(x) =~= part_text(x[0]));
    assert(parts_text(y) =~= part_text(y[0]));
    assert(parts_text(z) =~= part_text(z[0]));
    if b.len() == 0 {
        assert(a + b =~= a);
        assert(parts_text(a) + parts_text(b) =~= parts_text(a));
    } else {
        law_content_text(a, b.drop_last(), s, fs);
        assert((a + b).drop_last() =~= a + b.drop_last());
        assert(parts_text(a + b) =~= parts_text(a) + parts_text(b));
    }
}

/// The message of a node says the text of its content, under the id of the
/// message and by the role of its author. Nothing of the node or the message
/// is lost.
pub proof fn law_node_says_its_text(
    nodes: Seq<(Seq<char>, Atom)>,
    at: Seq<char>,
    node: Seq<(Seq<char>, Atom)>,
    msg: Seq<(Seq<char>, Atom)>,
    content: Seq<(Seq<char>, Atom)>,
    author: Seq<(Seq<char>, Atom)>,
    s: Seq<char>,
    id: Seq<char>,
    role: Seq<char>,
    conversation: Option<Seq<char>>,
)
    requires
        lookup(nodes, at) == Some(Atom::Obj(node)),
        lookup(node, "message"@) == Some(Atom::Obj(msg)),
        lookup(msg, "content"@) == Some(Atom::Obj(content)),
        lookup(content, "parts"@) == Some(Atom::Arr(seq![Atom::Text(s)])),
        s.len() > 0,
        id.len() > 0,
        role.len() > 0,
        ascending(keys(node)),
        ascending(keys(msg)),
    ensures
        node_responses(nodes, seq![at], conversation).len() == 1,
        ({
            let r = node_responses(nodes, seq![at], conversation)[0].response;
            &&& r.message == Some(Atom::Text(s))
            &&& r.conversation_id == conversation
            &&& lookup(msg, "id"@) == Some(Atom::Text(id)) ==> r._id == Some(id)
            &&& lookup(msg, "id"@) is None && lookup(node, "id"@) == Some(Atom::Text(id)) ==> r._id
                == Some(id)
            &&& lookup(msg, "author"@) == Some(Atom::Obj(author)) && lookup(author, "role"@)
                == Some(Atom::Text(role)) ==> r.sender == Some(role)
            &&& lookup(msg, "author"@) == Some(Atom::Text(role)) ==> r.sender == Some(role)
            &&& forall|key: Seq<char>| #[trigger]
                lookup(msg, key) is Some ==> lookup(r.extra, key) == lookup(msg, key)
            &&& forall|key: Seq<char>|
                #![trigger lookup(node, key)]
                lookup(msg, key) is None && lookup(node, key) is Some ==> lookup(r.extra, key)
                    == lookup(node, key)
        }),
{
    reveal_with_fuel(node_responses, 2);
    assert(seq![at].drop_last() =~= Seq::<Seq<char>>::empty());
    law_content_text(seq![Atom::Text(s)], Seq::empty(), s, content);
    let none = Seq::<(Seq<char>, Atom)>::empty();
    let all = union(union(none, node, true), msg, true);
    assert forall|key: Seq<char>| true implies #[trigger] lookup(all, key) == (if lookup(msg, key)
        is Some {
        lookup(msg, key)
    } else {
        lookup(node, key)
    }) by {
        law_union_loses_nothing(none, node, true, key);
        law_union_loses_nothing(union(none, node, true), msg, true, key);
    }
    assert forall|key: Seq<char>| #[trigger] lookup(msg, key) is Some implies lookup(all, key)
        == lookup(msg, key) by {
        assert(lookup(all, key) == lookup(all, key));
    }
    assert forall|key: Seq<char>|
        #![trigger lookup(node, key)]
        lookup(msg, key) is None && lookup(node, key) is Some implies lookup(all, key) == lookup(
        node,
        key,
    ) by {
        assert(lookup(all, key) == lookup(all, key));
    }
}

/// The responses of a run of nodes are those of its parts, in order.
pub proof fn law_responses_in_order(
    nodes: Seq<(Seq<char>, Atom)>,
    a: Seq<Seq<char>>,
    b: Seq<Seq<char>>,
    conversation: Option<Seq<char>>,
)
    ensures
        node_responses(nodes, a + b, conversation) == node_responses(nodes, a, conversation)
            + node_responses(nodes, b, conversation),
    decreases b.len(),
{
    let x = node_responses(nodes, a, conversation);
    if b.len() == 0 {
        assert(a + b =~= a);
        assert(x + node_responses(nodes, b, conversation) =~= x);
    } else {
        law_responses_in_order(nodes, a, b.drop_last(), conversation);
        assert((a + b).drop_last() =~= a + b.drop_last());
        assert((a + b).last() == b.last());
        assert(node_responses(nodes, a + b, conversation) =~= x + node_responses(
            nodes,
            b,
            conversation,
        ));
    }
}

/// The messages of a tree run from its root down to the current node: each is
/// the parent of the next. The nodes beside that branch follow, and no node
/// is left out.
pub proof fn law_branch_runs_from_the_root(
    nodes: Seq<(Seq<char>, Atom)>,
    current: Seq<char>,
    chain: Seq<Seq<char>>,
)
    requires
        is_climb(nodes, climb_start(nodes, Some(current)), chain),
    ensures
        node_order(nodes, chain).len() >= chain.len() > 0,
        node_order(nodes, chain)[chain.len() - 1] == current,
        forall|i: int|
            0 < i < chain.len() ==> match lookup(nodes, #[trigger] node_order(nodes, chain)[i]) {
                Some(Atom::Obj(fs)) => lookup(fs, "parent"@) == Some(
                    Atom::Text(node_order(nodes, chain)[i - 1]),
                ),
                _ => false,
            },
        forall|k: int|
            0 <= k < nodes.len() ==> node_order(nodes, chain).contains((#[trigger] nodes[k]).0),
{
    let order = node_order(nodes, chain);
    let n = chain.len() as int;
    let back = chain.reverse();
    assert(forall|i: int| 0 <= i < n ==> order[i] == back[i] && back[i] == chain[n - 1 - i]);
    assert forall|i: int| 0 < i < n implies match lookup(nodes, #[trigger] order[i]) {
        Some(Atom::Obj(fs)) => lookup(fs, "parent"@) == Some(Atom::Text(order[i - 1])),
        _ => false,
    } by {
        let k = n - 1 - i;
        assert(order[i] == chain[k]);
        assert(order[i - 1] == chain[k + 1]);
        assert(parent_id(lookup(nodes, chain[k])) == Some(chain[k + 1]));
    }
    assert forall|k: int| 0 <= k < nodes.len() implies order.contains((#[trigger] nodes[k]).0) by {
        let id = nodes[k].0;
        if chain.contains(id) {
            let j = choose|j: int| 0 <= j < n && chain[j] == id;
            assert(order[n - 1 - j] == id);
        } else {
            lemma_others(nodes, chain, k);
            let j = choose|j: int|
                0 <= j < others(nodes, chain).len() && others(nodes, chain)[j] == id;
            assert(order[n + j] == id);
        }
    }
}

proof fn lemma_others(nodes: Seq<(Seq<char>, Atom)>, chain: Seq<Seq<char>>, k: int)
    requires
        0 <= k < nodes.len(),
        !chain.contains(nodes[k].0),
    ensures
        others(nodes, chain).contains(nodes[k].0),
    decreases nodes.len(),
{
    let n = nodes.len() - 1;
    let rest = others(nodes.drop_last(), chain);
    if k < n {
        lemma_others(nodes.drop_last(), chain, k);
        let j = choose|j: int| 0 <= j < rest.len() && rest[j] == nodes[k].0;
        assert(others(nodes, chain)[j] == nodes[k].0);
    } else {
        assert(others(nodes, chain)[rest.len() as int] == nodes[k].0);
    }
}

/// Without a current node a branch ends at the last node that has no child.
pub proof fn law_leaf_has_no_child(nodes: Seq<(Seq<char>, Atom)>, k: int)
    requires
        0 <= k < nodes.len(),
        match nodes[k].1 {
            Atom::Obj(fs) => lookup(fs, "children"@) is None || lookup(fs, "children"@) == Some(
                Atom::Arr(Seq::empty()),
            ),
            _ => false,
        },
        forall|j: int|
            k < j < nodes.len() ==> match (#[trigger] nodes[j]).1 {
                Atom::Obj(fs) => match lookup(fs, "children"@) {
                    Some(Atom::Arr(v)) => v.len() > 0,
                    _ => false,
                },
                _ => false,
            },
    ensures
        climb_start(nodes, None) == Some(nodes[k].0),
    decreases nodes.len(),
{
    let n = nodes.len() - 1;
    if k < n {
        assert(!is_leaf(nodes[n].1));
        let init = nodes.drop_last();
        assert(forall|j: int| k < j < init.len() ==> #[trigger] init[j] == nodes[j]);
        law_leaf_has_no_child(init, k);
    }
}

/// Each key of a conversation fills its own field, and every key is kept.
pub proof fn law_convo_fields(c: ConvoView, key: Seq<char>, a: Atom, s: Seq<char>)
    requires
        s.len() > 0,
    ensures
        lookup(convo_with(c, key, a).extra, key) == Some(a),
        convo_with(c, "title"@, Atom::Text(s)).title == Some(s),
        convo_with(c, "conversation_id"@, Atom::Text(s)).conversation_id == Some(s),
        convo_with(c, "current_node"@, Atom::Text(s)).current_node == Some(s),
        convo_with(c, "create_time"@, a).create_time == Some(a),
        convo_with(c, "mapping"@, a).mapping == Some(a),
        key != "title"@ ==> convo_with(c, key, a).title == c.title,
        key != "conversation_id"@ ==> convo_with(c, key, a).conversation_id == c.conversation_id,
        key != "current_node"@ ==> convo_with(c, key, a).current_node == c.current_node,
        key != "create_time"@ ==> convo_with(c, key, a).create_time == c.create_time,
        key != "mapping"@ ==> convo_with(c, key, a).mapping == c.mapping,
{
    law_placed_is_found(c.extra, key, a, key);
    reveal_strlit("title");
    reveal_strlit("conversation_id");
    reveal_strlit("current_node");
    reveal_strlit("create_time");
    reveal_strlit("mapping");
    assert("title"@.len() == 5 && "conversation_id"@.len() == 15 && "current_node"@.len() == 12
        && "create_time"@.len() == 11 && "mapping"@.len() == 7);
}

} // verus!
