//! The searchable text of an archive: titles, summaries and messages, one
//! after the other, with a span for each.
use vstd::prelude::*;
use vstd::utf8::encode_utf8;

use crate::archive::{
    u32_fit_usize, unfit_text, TextSpan, FIELD_MESSAGE, FIELD_SUMMARY, FIELD_TITLE, RECORD_CONVERSATION,
    RECORD_RESPONSE,
};
use crate::catalog::{record_items, record_views, ConversationRecord};
use crate::pairs::lookup;
use crate::paths::opt_view;
use crate::records::{
    response_views, says, ConversationItem, ItemView, ResponseItem, ResponseItemView,
};
use crate::schema::{atoms, lemma_atom, Atom, ExtraMap, JsonAtom};
use crate::text::same_str;
use crate::utf::{byte_len, lemma_encode_concat};
use crate::Error;

verus! {

/// A piece of searchable text with the record and field that it comes from.
pub struct Piece {
    pub text: Seq<char>,
    pub record_kind: u32,
    pub record_index: u32,
    pub field_id: u32,
}

/// The pieces one after the other.
pub open spec fn pieces_text(v: Seq<Piece>) -> Seq<char>
    decreases v.len(),
{
    if v.len() == 0 {
        Seq::empty()
    } else {
        pieces_text(v.drop_last()) + v.last().text
    }
}

/// One span for each piece: its place in the text and where it comes from.
pub open spec fn pieces_spans(v: Seq<Piece>) -> Seq<TextSpan>
    decreases v.len(),
{
    if v.len() == 0 {
        Seq::empty()
    } else {
        pieces_spans(v.drop_last()).push(
            TextSpan {
                text_off: byte_len(pieces_text(v.drop_last())) as u64,
                len: byte_len(v.last().text) as u64,
                record_kind: v.last().record_kind,
                record_index: v.last().record_index,
                field_id: v.last().field_id,
            },
        )
    }
}

/// The text as a piece, unless it is empty.
pub open spec fn piece_of(text: Seq<char>, kind: u32, index: u32, field: u32) -> Seq<Piece> {
    if text.len() == 0 {
        Seq::empty()
    } else {
        seq![Piece { text, record_kind: kind, record_index: index, field_id: field }]
    }
}

/// The texts in a content part: a string, the `text` of an object whose
/// `type` is `text`, or those of the elements of an array.
pub open spec fn part_texts(a: Atom) -> Seq<Seq<char>>
    decreases a,
{
    match a {
        Atom::Text(s) => seq![s],
        Atom::Obj(fields) => if lookup(fields, "type"@) == Some(Atom::Text("text"@)) {
            match lookup(fields, "text"@) {
                Some(Atom::Text(s)) => seq![s],
                _ => Seq::empty(),
            }
        } else {
            Seq::empty()
        },
        Atom::Arr(v) => parts_texts(v),
        _ => Seq::empty(),
    }
}

/// The texts in content parts.
pub open spec fn parts_texts(v: Seq<Atom>) -> Seq<Seq<char>>
    decreases v,
{
    if v.len() == 0 {
        Seq::empty()
    } else {
        parts_texts(v.drop_last()) + part_texts(v[v.len() - 1])
    }
}

/// Texts as pieces of one field. Empty texts are left out.
pub open spec fn pieces_of(texts: Seq<Seq<char>>, kind: u32, index: u32, field: u32) -> Seq<Piece>
    decreases texts.len(),
{
    if texts.len() == 0 {
        Seq::empty()
    } else {
        pieces_of(texts.drop_last(), kind, index, field) + piece_of(
            texts.last(),
            kind,
            index,
            field,
        )
    }
}

/// The searchable texts of a response message.
pub open spec fn message_texts(message: Option<Atom>) -> Seq<Seq<char>> {
    match message {
        Some(a) => part_texts(a),
        None => Seq::empty(),
    }
}

/// The searchable texts of responses.
pub open spec fn responses_texts(v: Seq<ResponseItemView>) -> Seq<Seq<char>>
    decreases v.len(),
{
    if v.len() == 0 {
        Seq::empty()
    } else {
        responses_texts(v.drop_last()) + message_texts(v.last().response.message)
    }
}

/// The text of an optional field.
pub open spec fn field_texts(s: Option<Seq<char>>) -> Seq<Seq<char>> {
    match s {
        Some(x) => seq![x],
        None => Seq::empty(),
    }
}

/// The pieces of one conversation: title, summary, messages.
pub open spec fn item_pieces(x: ItemView, index: u32) -> Seq<Piece> {
    pieces_of(field_texts(x.conversation.title), RECORD_CONVERSATION, index, FIELD_TITLE)
        + pieces_of(field_texts(x.conversation.summary), RECORD_CONVERSATION, index, FIELD_SUMMARY)
        + pieces_of(responses_texts(x.responses), RECORD_RESPONSE, index, FIELD_MESSAGE)
}

/// The pieces of conversations, in order.
pub open spec fn all_pieces(v: Seq<ItemView>) -> Seq<Piece>
    decreases v.len(),
{
    if v.len() == 0 {
        Seq::empty()
    } else {
        all_pieces(v.drop_last()) + item_pieces(v.last(), (v.len() - 1) as u32)
    }
}

pub proof fn lemma_pieces_of_add(
    a: Seq<Seq<char>>,
    b: Seq<Seq<char>>,
    kind: u32,
    index: u32,
    field: u32,
)
    ensures
        pieces_of(a + b, kind, index, field) == pieces_of(a, kind, index, field) + pieces_of(
            b,
            kind,
            index,
            field,
        ),
    decreases b.len(),
{
    if b.len() == 0 {
        assert(a + b =~= a);
        assert(pieces_of(a, kind, index, field) + pieces_of(b, kind, index, field) =~= pieces_of(
            a,
            kind,
            index,
            field,
        ));
    } else {
        assert((a + b).drop_last() =~= a + b.drop_last());
        lemma_pieces_of_add(a, b.drop_last(), kind, index, field);
        assert(pieces_of(a + b, kind, index, field) =~= pieces_of(a, kind, index, field)
            + pieces_of(b, kind, index, field));
    }
}

/// Searchable text under construction.
pub struct TextBuilder {
    pub text: String,
    pub spans: Vec<TextSpan>,
}

impl TextBuilder {
    /// The builder holds exactly these pieces.
    pub open spec fn holds(self, v: Seq<Piece>) -> bool {
        self.text@ == pieces_text(v) && self.spans@ == pieces_spans(v)
    }

    /// Appends one text with its span. Empty text leaves no span.
    pub fn push_span(
        &mut self,
        value: &String,
        record_kind: u32,
        record_index: u32,
        field_id: u32,
    )
        ensures
            forall|v: Seq<Piece>| #[trigger]
                old(self).holds(v) ==> final(self).holds(
                    v + piece_of(value@, record_kind, record_index, field_id),
                ),
    {
        let ghost piece = piece_of(value@, record_kind, record_index, field_id);
        if value.is_empty() {
            proof {
                assert forall|v: Seq<Piece>| #[trigger] old(self).holds(v) implies self.holds(
                    v + piece,
                ) by {
                    assert(v + piece =~= v);
                }
            }
            return;
        }
        let value_len: usize = value.len();
        let text_off: usize = self.text.len();
        self.text.push_str(value);
        self.spans.push(
            TextSpan {
                text_off: text_off as u64,
                len: value_len as u64,
                record_kind,
                record_index,
                field_id,
            },
        );
        proof {
            assert forall|v: Seq<Piece>| #[trigger] old(self).holds(v) implies self.holds(
                v + piece,
            ) by {
                assert((v + piece).drop_last() =~= v);
            }
        }
    }

    /// Appends the texts of a content part.
    pub fn push_content_part_text(
        &mut self,
        a: &JsonAtom,
        record_kind: u32,
        record_index: u32,
        field_id: u32,
    )
        ensures
            forall|v: Seq<Piece>| #[trigger]
                old(self).holds(v) ==> final(self).holds(
                    v + pieces_of(part_texts(a@), record_kind, record_index, field_id),
                ),
        decreases a,
    {
        let ghost added = pieces_of(part_texts(a@), record_kind, record_index, field_id);
        let ghost start = *self;
        match a {
            JsonAtom::String(s) => {
                self.push_span(s, record_kind, record_index, field_id);
                proof {
                    lemma_one_text(s@, record_kind, record_index, field_id);
                }
            },
            JsonAtom::Object(fields) => {
                proof {
                    lemma_atom(arbitrary(), *fields);
                }
                let is_text_part = match fields.get("type") {
                    Some(JsonAtom::String(kind)) => same_str(kind, "text"),
                    _ => false,
                };
                if is_text_part {
                    if let Some(JsonAtom::String(body)) = fields.get("text") {
                        self.push_span(body, record_kind, record_index, field_id);
                        proof {
                            lemma_one_text(body@, record_kind, record_index, field_id);
                        }
                        return;
                    }
                }
                proof {
                    assert forall|v: Seq<Piece>| #[trigger] start.holds(v) implies self.holds(
                        v + added,
                    ) by {
                        assert(v + added =~= v);
                    }
                }
            },
            JsonAtom::Array(v) => {
                let ghost all = atoms(v@);
                let mut i: usize = 0;
                proof {
                    assert(all.take(0) =~= Seq::<Atom>::empty());
                    assert forall|w: Seq<Piece>| #[trigger] start.holds(w) implies self.holds(
                        w + pieces_of(
                            parts_texts(all.take(0)),
                            record_kind,
                            record_index,
                            field_id,
                        ),
                    ) by {
                        assert(w + pieces_of(
                            parts_texts(all.take(0)),
                            record_kind,
                            record_index,
                            field_id,
                        ) =~= w);
                    }
                }
                while i < v.len()
                    invariant
                        i <= v@.len(),
                        all == atoms(v@),
                        *a == JsonAtom::Array(*v),
                        forall|w: Seq<Piece>| #[trigger]
                            start.holds(w) ==> self.holds(
                                w + pieces_of(
                                    parts_texts(all.take(i as int)),
                                    record_kind,
                                    record_index,
                                    field_id,
                                ),
                            ),
                    decreases v.len() - i,
                {
                    proof {
                        assert(decreases_to!(*a => a->Array_0));
                        assert(decreases_to!(*v => v@));
                        assert(decreases_to!(v@ => v@[i as int]));
                    }
                    let ghost prior = *self;
                    self.push_content_part_text(&v[i], record_kind, record_index, field_id);
                    proof {
                        assert(all.take(i + 1).drop_last() =~= all.take(i as int));
                        let x = parts_texts(all.take(i as int));
                        let y = part_texts(all[i as int]);
                        lemma_pieces_of_add(x, y, record_kind, record_index, field_id);
                        assert(parts_texts(all.take(i + 1)) == x + y);
                        let px = pieces_of(x, record_kind, record_index, field_id);
                        let py = pieces_of(y, record_kind, record_index, field_id);
                        assert forall|w: Seq<Piece>| #[trigger] start.holds(w) implies self.holds(
                            w + (px + py),
                        ) by {
                            assert(prior.holds(w + px));
                            assert(w + px + py =~= w + (px + py));
                        }
                    }
                    i = i + 1;
                }
                proof {
                    assert(all.take(all.len() as int) =~= all);
                    lemma_atom(*v, ExtraMap { entries: arbitrary() });
                }
            },
            _ => {
                proof {
                    assert forall|v: Seq<Piece>| #[trigger] start.holds(v) implies self.holds(
                        v + added,
                    ) by {
                        assert(v + added =~= v);
                    }
                }
            },
        }
    }
}

proof fn lemma_one_text(s: Seq<char>, kind: u32, index: u32, field: u32)
    ensures
        pieces_of(seq![s], kind, index, field) == piece_of(s, kind, index, field),
{
    reveal_with_fuel(pieces_of, 2);
    let one = seq![s];
    assert(one.drop_last() =~= Seq::<Seq<char>>::empty());
    assert(pieces_of(one, kind, index, field) =~= piece_of(s, kind, index, field));
}

/// The searchable text of conversations and its spans. More conversations
/// than a span can number are refused.
pub fn build_text(conversations: &Vec<ConversationRecord>) -> (r: Result<
    (String, Vec<TextSpan>),
    Error,
>)
    ensures
        match r {
            Ok((text, spans)) => {
                &&& conversations@.len() <= u32::MAX + 1
                &&& text@ == pieces_text(all_pieces(record_items(record_views(conversations@))))
                &&& spans@ == pieces_spans(all_pieces(record_items(record_views(conversations@))))
            },
            Err(Error::Ingest(m)) => {
                &&& conversations@.len() > u32::MAX + 1
                &&& m@ == unfit_text(u32::MAX as nat + 1, "conversation index"@)
            },
            Err(_) => false,
        },
{
    let ghost all = record_items(record_views(conversations@));
    let mut out = TextBuilder { text: String::new(), spans: Vec::new() };
    let mut i: usize = 0;
    proof {
        assert(all.take(0) =~= Seq::<ItemView>::empty());
        assert(out.holds(all_pieces(all.take(0))));
    }
    while i < conversations.len()
        invariant
            i <= conversations@.len(),
            i <= u32::MAX + 1,
            all == record_items(record_views(conversations@)),
            out.holds(all_pieces(all.take(i as int))),
        decreases conversations.len() - i,
    {
        let index = match u32_fit_usize(i, "conversation index") {
            Ok(n) => n,
            Err(e) => {
                return Err(e);
            },
        };
        let item = &conversations[i].item;
        let ghost x = item@;
        proof {
            assert(all.take(i + 1).drop_last() =~= all.take(i as int));
            assert(all.take(i + 1).last() == x);
        }
        push_item(&mut out, item, index);
        i = i + 1;
    }
    proof {
        assert(all.take(all.len() as int) =~= all);
    }
    Ok((out.text, out.spans))
}

/// Appends the pieces of one conversation.
fn push_item(out: &mut TextBuilder, item: &ConversationItem, index: u32)
    ensures
        forall|v: Seq<Piece>| #[trigger]
            old(out).holds(v) ==> final(out).holds(v + item_pieces(item@, index)),
{
    let ghost x = item@;
    let ghost start = *out;
    let ghost a = pieces_of(
        field_texts(x.conversation.title),
        RECORD_CONVERSATION,
        index,
        FIELD_TITLE,
    );
    let ghost b = pieces_of(
        field_texts(x.conversation.summary),
        RECORD_CONVERSATION,
        index,
        FIELD_SUMMARY,
    );
    let ghost c = pieces_of(responses_texts(x.responses), RECORD_RESPONSE, index, FIELD_MESSAGE);
    push_field(out, &item.conversation.title, RECORD_CONVERSATION, index, FIELD_TITLE);
    push_field(out, &item.conversation.summary, RECORD_CONVERSATION, index, FIELD_SUMMARY);
    push_messages(out, &item.responses, index);
    proof {
        assert forall|v: Seq<Piece>| #[trigger] start.holds(v) implies out.holds(
            v + item_pieces(x, index),
        ) by {
            assert(v + a + b + c =~= v + (a + b + c));
        }
    }
}

/// Appends the text of an optional field.
fn push_field(out: &mut TextBuilder, value: &Option<String>, kind: u32, index: u32, field: u32)
    ensures
        forall|v: Seq<Piece>| #[trigger]
            old(out).holds(v) ==> final(out).holds(
                v + pieces_of(field_texts(opt_view(*value)), kind, index, field),
            ),
{
    match value {
        Some(s) => {
            out.push_span(s, kind, index, field);
            proof {
                lemma_one_text(s@, kind, index, field);
            }
        },
        None => {
            proof {
                assert forall|v: Seq<Piece>| #[trigger] old(out).holds(v) implies out.holds(
                    v + pieces_of(field_texts(None), kind, index, field),
                ) by {
                    assert(v + pieces_of(field_texts(None), kind, index, field) =~= v);
                }
            }
        },
    }
}

/// Appends the message texts of responses.
fn push_messages(out: &mut TextBuilder, responses: &Vec<ResponseItem>, index: u32)
    ensures
        forall|v: Seq<Piece>| #[trigger]
            old(out).holds(v) ==> final(out).holds(
                v + pieces_of(
                    responses_texts(response_views(responses@)),
                    RECORD_RESPONSE,
                    index,
                    FIELD_MESSAGE,
                ),
            ),
{
    let ghost all = response_views(responses@);
    let ghost start = *out;
    let mut i: usize = 0;
    proof {
        assert(all.take(0) =~= Seq::<ResponseItemView>::empty());
        assert forall|v: Seq<Piece>| #[trigger] start.holds(v) implies out.holds(
            v + pieces_of(responses_texts(all.take(0)), RECORD_RESPONSE, index, FIELD_MESSAGE),
        ) by {
            assert(v + pieces_of(
                responses_texts(all.take(0)),
                RECORD_RESPONSE,
                index,
                FIELD_MESSAGE,
            ) =~= v);
        }
    }
    while i < responses.len()
        invariant
            i <= responses@.len(),
            all == response_views(responses@),
            forall|v: Seq<Piece>| #[trigger]
                start.holds(v) ==> out.holds(
                    v + pieces_of(
                        responses_texts(all.take(i as int)),
                        RECORD_RESPONSE,
                        index,
                        FIELD_MESSAGE,
                    ),
                ),
        decreases responses.len() - i,
    {
        let ghost prior = *out;
        let ghost x = responses_texts(all.take(i as int));
        let ghost y = message_texts(all[i as int].response.message);
        let ghost px = pieces_of(x, RECORD_RESPONSE, index, FIELD_MESSAGE);
        let ghost py = pieces_of(y, RECORD_RESPONSE, index, FIELD_MESSAGE);
        match &responses[i].response.message {
            Some(a) => {
                out.push_content_part_text(a, RECORD_RESPONSE, index, FIELD_MESSAGE);
                proof {
                    assert(y == part_texts(a@));
                }
            },
            None => {
                proof {
                    assert(py =~= Seq::<Piece>::empty());
                    assert forall|v: Seq<Piece>| #[trigger] prior.holds(v) implies out.holds(
                        v + py,
                    ) by {
                        assert(v + py =~= v);
                    }
                }
            },
        }
        proof {
            assert(all.take(i + 1).drop_last() =~= all.take(i as int));
            lemma_pieces_of_add(x, y, RECORD_RESPONSE, index, FIELD_MESSAGE);
            assert(responses_texts(all.take(i + 1)) == x + y);
            assert forall|v: Seq<Piece>| #[trigger] start.holds(v) implies out.holds(
                v + (px + py),
            ) by {
                assert(prior.holds(v + px));
                assert(v + px + py =~= v + (px + py));
            }
        }
        i = i + 1;
    }
    proof {
        assert(all.take(all.len() as int) =~= all);
    }
}

/// The spans lie one after the other and cover the whole text: the first
/// starts at 0, each starts where the one before it ends, and the last ends
/// with the text.
pub proof fn law_spans_tile_the_text(v: Seq<Piece>)
    requires
        byte_len(pieces_text(v)) <= u64::MAX,
    ensures
        pieces_spans(v).len() == v.len(),
        forall|i: int|
            0 <= i < v.len() ==> (#[trigger] pieces_spans(v)[i]).text_off == byte_len(
                pieces_text(v.take(i)),
            ) && pieces_spans(v)[i].text_off + pieces_spans(v)[i].len == byte_len(
                pieces_text(v.take(i + 1)),
            ) && pieces_spans(v)[i].len == byte_len(v[i].text),
    decreases v.len(),
{
    if v.len() > 0 {
        let init = v.drop_last();
        lemma_encode_concat(pieces_text(init), v.last().text);
        law_spans_tile_the_text(init);
        assert forall|i: int| 0 <= i < v.len() implies (#[trigger] pieces_spans(v)[i]).text_off
            == byte_len(pieces_text(v.take(i))) && pieces_spans(v)[i].text_off + pieces_spans(
            v,
        )[i].len == byte_len(pieces_text(v.take(i + 1))) && pieces_spans(v)[i].len == byte_len(
            v[i].text,
        ) by {
            if i < init.len() {
                assert(pieces_spans(init)[i] == pieces_spans(v)[i]);
                assert(init.take(i) =~= v.take(i));
                assert(init.take(i + 1) =~= v.take(i + 1));
            } else {
                assert(v.take(i) =~= init);
                assert(v.take(i + 1) =~= v);
            }
        }
    }
}

/// `s` is a text of a message: the message itself, the text of an object of
/// the type `text`, or a text of an element of an array.
pub open spec fn holds_text(a: Atom, s: Seq<char>) -> bool
    decreases a,
{
    match a {
        Atom::Text(t) => t == s,
        Atom::Obj(fs) => lookup(fs, "type"@) == Some(Atom::Text("text"@)) && lookup(fs, "text"@)
            == Some(Atom::Text(s)),
        Atom::Arr(v) => exists|i: int| 0 <= i < v.len() && holds_text(#[trigger] v[i], s),
        _ => false,
    }
}

/// `s` is a text of a response of the conversation.
pub open spec fn message_holds(x: ItemView, s: Seq<char>) -> bool {
    exists|j: int|
        0 <= j < x.responses.len() && match (#[trigger] x.responses[j]).response.message {
            Some(a) => holds_text(a, s),
            None => false,
        }
}

/// The span marks the text `s` in the whole text, with this source.
pub open spec fn marks(
    text: Seq<char>,
    span: TextSpan,
    s: Seq<char>,
    kind: int,
    index: int,
    field: int,
) -> bool {
    &&& span.record_kind == kind
    &&& span.record_index == index
    &&& span.field_id == field
    &&& 0 <= span.text_off <= span.text_off + span.len <= encode_utf8(text).len()
    &&& encode_utf8(text).subrange(span.text_off as int, span.text_off + span.len)
        == encode_utf8(s)
}

proof fn lemma_part_texts(a: Atom, s: Seq<char>)
    ensures
        part_texts(a).contains(s) <==> holds_text(a, s),
    decreases a,
{
    match a {
        Atom::Text(t) => {
            assert(part_texts(a)[0] == t);
        },
        Atom::Obj(fs) => {
            if lookup(fs, "type"@) == Some(Atom::Text("text"@)) {
                match lookup(fs, "text"@) {
                    Some(Atom::Text(t)) => {
                        assert(part_texts(a)[0] == t);
                    },
                    _ => {},
                }
            }
        },
        Atom::Arr(v) => {
            lemma_parts_texts(v, s);
        },
        _ => {},
    }
}

proof fn lemma_parts_texts(v: Seq<Atom>, s: Seq<char>)
    ensures
        parts_texts(v).contains(s) <==> exists|i: int|
            0 <= i < v.len() && holds_text(#[trigger] v[i], s),
    decreases v,
{
    if v.len() > 0 {
        let n = v.len() - 1;
        let init = v.drop_last();
        lemma_parts_texts(init, s);
        lemma_part_texts(v[n], s);
        lemma_either(parts_texts(init), part_texts(v[n]), s);
        if exists|i: int| 0 <= i < v.len() && holds_text(#[trigger] v[i], s) {
            let i = choose|i: int| 0 <= i < v.len() && holds_text(#[trigger] v[i], s);
            if i < n {
                assert(holds_text(init[i], s));
            }
        }
        if exists|i: int| 0 <= i < init.len() && holds_text(#[trigger] init[i], s) {
            let i = choose|i: int| 0 <= i < init.len() && holds_text(#[trigger] init[i], s);
            assert(holds_text(v[i], s));
        }
    }
}

proof fn lemma_either<A>(a: Seq<A>, b: Seq<A>, x: A)
    ensures
        (a + b).contains(x) <==> a.contains(x) || b.contains(x),
{
    let c = a + b;
    if a.contains(x) {
        let i = choose|i: int| 0 <= i < a.len() && a[i] == x;
        assert(c[i] == x);
    }
    if b.contains(x) {
        let i = choose|i: int| 0 <= i < b.len() && b[i] == x;
        assert(c[a.len() + i] == x);
    }
    if c.contains(x) {
        let i = choose|i: int| 0 <= i < c.len() && c[i] == x;
        if i < a.len() {
            assert(a[i] == x);
        } else {
            assert(b[i - a.len()] == x);
        }
    }
}

proof fn lemma_responses_texts(v: Seq<ResponseItemView>, s: Seq<char>)
    ensures
        responses_texts(v).contains(s) <==> exists|j: int|
            0 <= j < v.len() && match (#[trigger] v[j]).response.message {
                Some(a) => holds_text(a, s),
                None => false,
            },
    decreases v.len(),
{
    if v.len() > 0 {
        let n = v.len() - 1;
        let init = v.drop_last();
        lemma_responses_texts(init, s);
        lemma_either(responses_texts(init), message_texts(v[n].response.message), s);
        match v[n].response.message {
            Some(a) => {
                lemma_part_texts(a, s);
            },
            None => {},
        }
        assert(forall|j: int| 0 <= j < n ==> init[j] == v[j]);
        if responses_texts(init).contains(s) {
            let j = choose|j: int|
                0 <= j < init.len() && match (#[trigger] init[j]).response.message {
                    Some(a) => holds_text(a, s),
                    None => false,
                };
            assert(v[j] == init[j]);
        }
    }
}

proof fn lemma_pieces_of(texts: Seq<Seq<char>>, kind: u32, index: u32, field: u32, p: Piece)
    ensures
        pieces_of(texts, kind, index, field).contains(p) <==> {
            &&& p.record_kind == kind
            &&& p.record_index == index
            &&& p.field_id == field
            &&& p.text.len() > 0
            &&& texts.contains(p.text)
        },
    decreases texts.len(),
{
    if texts.len() > 0 {
        let init = texts.drop_last();
        lemma_pieces_of(init, kind, index, field, p);
        let one = piece_of(texts.last(), kind, index, field);
        lemma_either(pieces_of(init, kind, index, field), one, p);
        lemma_either(init, seq![texts.last()], p.text);
        assert(init + seq![texts.last()] =~= texts);
        assert(seq![texts.last()][0] == texts.last());
        if texts.last().len() > 0 {
            assert(one[0] == Piece {
                text: texts.last(),
                record_kind: kind,
                record_index: index,
                field_id: field,
            });
        }
    }
}

/// Where a text of a conversation can come from: 1 and 1, the title; 1 and 2,
/// the summary; 2 and 3, a message.
pub open spec fn comes_from(x: ItemView, s: Seq<char>, kind: int, field: int) -> bool {
    ||| kind == 1 && field == 1 && x.conversation.title == Some(s)
    ||| kind == 1 && field == 2 && x.conversation.summary == Some(s)
    ||| kind == 2 && field == 3 && message_holds(x, s)
}

proof fn lemma_item_pieces(x: ItemView, index: u32, p: Piece)
    ensures
        item_pieces(x, index).contains(p) <==> {
            &&& p.record_index == index
            &&& p.text.len() > 0
            &&& comes_from(x, p.text, p.record_kind as int, p.field_id as int)
        },
{
    let t = field_texts(x.conversation.title);
    let u = field_texts(x.conversation.summary);
    let r = responses_texts(x.responses);
    let a = pieces_of(t, RECORD_CONVERSATION, index, FIELD_TITLE);
    let b = pieces_of(u, RECORD_CONVERSATION, index, FIELD_SUMMARY);
    let c = pieces_of(r, RECORD_RESPONSE, index, FIELD_MESSAGE);
    lemma_pieces_of(t, RECORD_CONVERSATION, index, FIELD_TITLE, p);
    lemma_pieces_of(u, RECORD_CONVERSATION, index, FIELD_SUMMARY, p);
    lemma_pieces_of(r, RECORD_RESPONSE, index, FIELD_MESSAGE, p);
    lemma_either(a + b, c, p);
    lemma_either(a, b, p);
    lemma_responses_texts(x.responses, p.text);
    if x.conversation.title is Some {
        assert(t[0] == x.conversation.title->0);
    }
    if x.conversation.summary is Some {
        assert(u[0] == x.conversation.summary->0);
    }
}

proof fn lemma_all_pieces(v: Seq<ItemView>, p: Piece)
    requires
        v.len() <= u32::MAX + 1,
    ensures
        all_pieces(v).contains(p) <==> {
            &&& p.record_index < v.len()
            &&& p.text.len() > 0
            &&& comes_from(v[p.record_index as int], p.text, p.record_kind as int, p.field_id as int)
        },
    decreases v.len(),
{
    if v.len() > 0 {
        let n = v.len() - 1;
        let init = v.drop_last();
        lemma_all_pieces(init, p);
        lemma_item_pieces(v[n], n as u32, p);
        lemma_either(all_pieces(init), item_pieces(v[n], n as u32), p);
        if p.record_index < n {
            assert(init[p.record_index as int] == v[p.record_index as int]);
        }
    }
}

proof fn lemma_span_marks(v: Seq<Piece>, m: int)
    requires
        byte_len(pieces_text(v)) <= u64::MAX,
        0 <= m < v.len(),
    ensures
        pieces_spans(v).len() == v.len(),
        marks(
            pieces_text(v),
            pieces_spans(v)[m],
            v[m].text,
            v[m].record_kind as int,
            v[m].record_index as int,
            v[m].field_id as int,
        ),
    decreases v.len(),
{
    let init = v.drop_last();
    let (x, y) = (pieces_text(init), v.last().text);
    lemma_encode_concat(x, y);
    law_spans_tile_the_text(v);
    law_spans_tile_the_text(init);
    let b = encode_utf8(x + y);
    let span = pieces_spans(v)[m];
    if m < init.len() {
        lemma_span_marks(init, m);
        assert(pieces_spans(init)[m] == span);
        assert(init[m] == v[m]);
        assert(b.subrange(span.text_off as int, span.text_off + span.len) =~= encode_utf8(
            x,
        ).subrange(span.text_off as int, span.text_off + span.len));
    } else {
        assert(b.subrange(span.text_off as int, span.text_off + span.len) =~= encode_utf8(y));
    }
}

/// Every text is searchable. A title, a summary or a text of a message that is
/// not empty is marked by a span with its conversation and field.
pub proof fn law_every_text_is_searchable(
    v: Seq<ItemView>,
    i: int,
    s: Seq<char>,
    kind: int,
    field: int,
)
    requires
        v.len() <= u32::MAX + 1,
        byte_len(pieces_text(all_pieces(v))) <= u64::MAX,
        0 <= i < v.len(),
        s.len() > 0,
        ({
            ||| kind == 1 && field == 1 && v[i].conversation.title == Some(s)
            ||| kind == 1 && field == 2 && v[i].conversation.summary == Some(s)
            ||| kind == 2 && field == 3 && message_holds(v[i], s)
        }),
    ensures
        exists|m: int|
            0 <= m < pieces_spans(all_pieces(v)).len() && marks(
                pieces_text(all_pieces(v)),
                #[trigger] pieces_spans(all_pieces(v))[m],
                s,
                kind,
                i,
                field,
            ),
{
    let all = all_pieces(v);
    let p = Piece {
        text: s,
        record_kind: kind as u32,
        record_index: i as u32,
        field_id: field as u32,
    };
    lemma_all_pieces(v, p);
    let m = choose|m: int| 0 <= m < all.len() && all[m] == p;
    lemma_span_marks(all, m);
    assert(marks(pieces_text(all), pieces_spans(all)[m], s, kind, i, field));
}

/// Every span marks a text of the conversation that it names: its title, its
/// summary or a text of one of its messages.
pub proof fn law_every_span_is_a_text(v: Seq<ItemView>, m: int)
    requires
        v.len() <= u32::MAX + 1,
        byte_len(pieces_text(all_pieces(v))) <= u64::MAX,
        0 <= m < pieces_spans(all_pieces(v)).len(),
    ensures
        ({
            let span = pieces_spans(all_pieces(v))[m];
            let x = v[span.record_index as int];
            &&& span.record_index < v.len()
            &&& exists|s: Seq<char>| #[trigger]
                marks(
                    pieces_text(all_pieces(v)),
                    span,
                    s,
                    span.record_kind as int,
                    span.record_index as int,
                    span.field_id as int,
                ) && s.len() > 0 && {
                    ||| span.record_kind == 1 && span.field_id == 1 && x.conversation.title == Some(s)
                    ||| span.record_kind == 1 && span.field_id == 2 && x.conversation.summary
                        == Some(s)
                    ||| span.record_kind == 2 && span.field_id == 3 && message_holds(x, s)
                }
        }),
{
    let all = all_pieces(v);
    law_spans_tile_the_text(all);
    lemma_span_marks(all, m);
    assert(all.contains(all[m]));
    lemma_all_pieces(v, all[m]);
}

/// The spans follow the order of the conversations.
pub proof fn law_spans_follow_the_conversations(v: Seq<ItemView>, m: int, n: int)
    requires
        v.len() <= u32::MAX + 1,
        byte_len(pieces_text(all_pieces(v))) <= u64::MAX,
        0 <= m < n < pieces_spans(all_pieces(v)).len(),
    ensures
        pieces_spans(all_pieces(v))[m].record_index <= pieces_spans(all_pieces(v))[n].record_index,
{
    let all = all_pieces(v);
    law_spans_tile_the_text(all);
    lemma_span_marks(all, m);
    lemma_span_marks(all, n);
    lemma_pieces_in_order(v, m, n);
}

proof fn lemma_pieces_in_order(v: Seq<ItemView>, m: int, n: int)
    requires
        v.len() <= u32::MAX + 1,
        0 <= m < n < all_pieces(v).len(),
    ensures
        all_pieces(v)[m].record_index <= all_pieces(v)[n].record_index,
    decreases v.len(),
{
    let k = v.len() - 1;
    let init = v.drop_last();
    let head = all_pieces(init);
    let tail = item_pieces(v[k], k as u32);
    if n < head.len() {
        lemma_pieces_in_order(init, m, n);
    } else {
        let last = tail[n - head.len()];
        assert(tail.contains(last));
        lemma_item_pieces(v[k], k as u32, last);
        if m < head.len() {
            assert(head.contains(head[m]));
            lemma_all_pieces(init, head[m]);
        } else {
            let other = tail[m - head.len()];
            assert(tail.contains(other));
            lemma_item_pieces(v[k], k as u32, other);
        }
    }
}

/// Nothing is packed twice: the pieces of a conversation with a title, a
/// summary and plain messages are these texts, one piece each and in this
/// order.
pub proof fn law_each_text_once(x: ItemView, index: u32, texts: Seq<Seq<char>>)
    requires
        x.conversation.title is Some,
        x.conversation.title->0.len() > 0,
        x.conversation.summary is Some,
        x.conversation.summary->0.len() > 0,
        says(x, texts),
        forall|j: int| 0 <= j < texts.len() ==> (#[trigger] texts[j]).len() > 0,
    ensures
        item_pieces(x, index).len() == texts.len() + 2,
        item_pieces(x, index)[0].text == x.conversation.title->0,
        item_pieces(x, index)[1].text == x.conversation.summary->0,
        forall|j: int|
            0 <= j < texts.len() ==> (#[trigger] item_pieces(x, index)[j + 2]).text == texts[j],
{
    let t = x.conversation.title->0;
    let u = x.conversation.summary->0;
    lemma_one_text(t, RECORD_CONVERSATION, index, FIELD_TITLE);
    lemma_one_text(u, RECORD_CONVERSATION, index, FIELD_SUMMARY);
    lemma_plain_messages(x.responses, texts, index);
    let c = pieces_of(responses_texts(x.responses), RECORD_RESPONSE, index, FIELD_MESSAGE);
    assert forall|j: int| 0 <= j < texts.len() implies (#[trigger] item_pieces(x, index)[j + 2]).text
        == texts[j] by {
        assert(item_pieces(x, index)[j + 2] == c[j]);
    }
}

proof fn lemma_plain_messages(v: Seq<ResponseItemView>, texts: Seq<Seq<char>>, index: u32)
    requires
        v.len() == texts.len(),
        forall|j: int|
            0 <= j < texts.len() ==> (#[trigger] v[j]).response.message == Some(
                Atom::Text(texts[j]),
            ),
        forall|j: int| 0 <= j < texts.len() ==> (#[trigger] texts[j]).len() > 0,
    ensures
        ({
            let c = pieces_of(responses_texts(v), RECORD_RESPONSE, index, FIELD_MESSAGE);
            &&& c.len() == texts.len()
            &&& forall|j: int| 0 <= j < texts.len() ==> (#[trigger] c[j]).text == texts[j]
        }),
    decreases v.len(),
{
    if v.len() > 0 {
        let n = v.len() - 1;
        let (w, t) = (v.drop_last(), texts.drop_last());
        assert forall|j: int| 0 <= j < t.len() implies (#[trigger] w[j]).response.message == Some(
            Atom::Text(t[j]),
        ) by {
            assert(w[j] == v[j]);
        }
        assert forall|j: int| 0 <= j < t.len() implies (#[trigger] t[j]).len() > 0 by {
            assert(t[j] == texts[j]);
        }
        lemma_plain_messages(w, t, index);
        assert(v.last() == v[n]);
        assert(texts[n].len() > 0);
        lemma_pieces_of_add(
            responses_texts(w),
            seq![texts[n]],
            RECORD_RESPONSE,
            index,
            FIELD_MESSAGE,
        );
        lemma_one_text(texts[n], RECORD_RESPONSE, index, FIELD_MESSAGE);
    }
}

} // verus!
