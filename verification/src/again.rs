//! What a second ingest of the same exports gives.
use vstd::prelude::*;

use crate::catalog::{ExportManifest, RecordView};
use crate::ingest::{identity, shelf_ok, shelved, shelved_all, Shelf};
use crate::pack::{identities_of, ids_of, known_id, placed_records};
use crate::records::{ItemView, ResponseItemView};

verus! {

/// The conversations after several exports came in. Each export gets the next
/// number, after the `known` ones.
pub open spec fn ingested(
    s: Shelf,
    known: nat,
    inputs: Seq<Seq<ItemView>>,
    ei: spec_fn(ItemView) -> Seq<u8>,
    er: spec_fn(ResponseItemView) -> Seq<u8>,
) -> Shelf
    decreases inputs.len(),
{
    if inputs.len() == 0 {
        s
    } else {
        shelved_all(
            ingested(s, known, inputs.drop_last(), ei, er),
            (known + inputs.len() - 1) as u32,
            inputs.last(),
            ei,
            er,
        )
    }
}

/// The conversations as they are taken from the archive that they were packed
/// into.
pub open spec fn reopened(
    s: Shelf,
    ei: spec_fn(ItemView) -> Seq<u8>,
    er: spec_fn(ResponseItemView) -> Seq<u8>,
) -> Shelf {
    let rows = placed_records(s.records, ei);
    Shelf { records: rows, idents: identities_of(rows, ei, er), by_id: ids_of(rows) }
}

/// Every id names a row with a conversation of that id.
pub open spec fn well_named(s: Shelf) -> bool {
    &&& shelf_ok(s)
    &&& forall|id: Seq<char>| #[trigger]
        s.by_id.contains_key(id) ==> s.records[s.by_id[id] as int].item.conversation.id == Some(id)
}

/// Every conversation has an id.
pub open spec fn all_have_ids(inputs: Seq<Seq<ItemView>>) -> bool {
    forall|k: int, j: int|
        0 <= k < inputs.len() && 0 <= j < inputs[k].len() ==> (
        #[trigger] inputs[k][j]).conversation.id is Some
}

/// Every conversation has an id that names a row.
pub open spec fn all_known(s: Shelf, items: Seq<ItemView>) -> bool {
    forall|j: int|
        0 <= j < items.len() ==> (#[trigger] items[j]).conversation.id is Some
            && s.by_id.contains_key(items[j].conversation.id->0)
}

/// The same names, and maybe more.
pub open spec fn keeps_names(s: Shelf, t: Shelf) -> bool {
    forall|id: Seq<char>| #[trigger] s.by_id.contains_key(id) ==> t.by_id.contains_key(id)
}

proof fn lemma_shelved(
    s: Shelf,
    export_index: u32,
    item: ItemView,
    ei: spec_fn(ItemView) -> Seq<u8>,
    er: spec_fn(ResponseItemView) -> Seq<u8>,
)
    requires
        well_named(s),
        shelved(s, export_index, item, identity(item, ei, er), ei, er).records.len() <= usize::MAX,
    ensures
        ({
            let t = shelved(s, export_index, item, identity(item, ei, er), ei, er);
            &&& well_named(t)
            &&& keeps_names(s, t)
            &&& s.records.len() <= t.records.len()
            &&& item.conversation.id matches Some(id) ==> t.by_id.contains_key(id)
        }),
{
}

proof fn lemma_shelved_all(
    s: Shelf,
    export_index: u32,
    items: Seq<ItemView>,
    ei: spec_fn(ItemView) -> Seq<u8>,
    er: spec_fn(ResponseItemView) -> Seq<u8>,
)
    requires
        well_named(s),
        shelved_all(s, export_index, items, ei, er).records.len() <= usize::MAX,
    ensures
        ({
            let t = shelved_all(s, export_index, items, ei, er);
            &&& well_named(t)
            &&& keeps_names(s, t)
            &&& s.records.len() <= t.records.len()
            &&& forall|j: int|
                0 <= j < items.len() && (#[trigger] items[j]).conversation.id is Some
                    ==> t.by_id.contains_key(items[j].conversation.id->0)
        }),
    decreases items.len(),
{
    if items.len() > 0 {
        let head = items.drop_last();
        let mid = shelved_all(s, export_index, head, ei, er);
        lemma_shelved_all_len(s, export_index, head, ei, er);
        lemma_shelved_len(mid, export_index, items.last(), ei, er);
        lemma_shelved_all(s, export_index, head, ei, er);
        lemma_shelved(mid, export_index, items.last(), ei, er);
        let t = shelved_all(s, export_index, items, ei, er);
        assert forall|j: int|
            0 <= j < items.len() && (#[trigger] items[j]).conversation.id
                is Some implies t.by_id.contains_key(items[j].conversation.id->0) by {
            if j < head.len() {
                assert(items[j] == head[j]);
            }
        }
    }
}

proof fn lemma_shelved_len(
    s: Shelf,
    export_index: u32,
    item: ItemView,
    ei: spec_fn(ItemView) -> Seq<u8>,
    er: spec_fn(ResponseItemView) -> Seq<u8>,
)
    requires
        shelf_ok(s),
    ensures
        shelf_ok(shelved(s, export_index, item, identity(item, ei, er), ei, er)),
        s.records.len() <= shelved(
            s,
            export_index,
            item,
            identity(item, ei, er),
            ei,
            er,
        ).records.len(),
{
}

proof fn lemma_shelved_all_len(
    s: Shelf,
    export_index: u32,
    items: Seq<ItemView>,
    ei: spec_fn(ItemView) -> Seq<u8>,
    er: spec_fn(ResponseItemView) -> Seq<u8>,
)
    requires
        shelf_ok(s),
    ensures
        shelf_ok(shelved_all(s, export_index, items, ei, er)),
        s.records.len() <= shelved_all(s, export_index, items, ei, er).records.len(),
    decreases items.len(),
{
    if items.len() > 0 {
        let mid = shelved_all(s, export_index, items.drop_last(), ei, er);
        lemma_shelved_all_len(s, export_index, items.drop_last(), ei, er);
        lemma_shelved_len(mid, export_index, items.last(), ei, er);
    }
}

proof fn lemma_ingested_ok(
    s: Shelf,
    known: nat,
    inputs: Seq<Seq<ItemView>>,
    ei: spec_fn(ItemView) -> Seq<u8>,
    er: spec_fn(ResponseItemView) -> Seq<u8>,
)
    requires
        shelf_ok(s),
    ensures
        shelf_ok(ingested(s, known, inputs, ei, er)),
    decreases inputs.len(),
{
    if inputs.len() > 0 {
        let head = inputs.drop_last();
        lemma_ingested_ok(s, known, head, ei, er);
        lemma_shelved_all_len(
            ingested(s, known, head, ei, er),
            (known + inputs.len() - 1) as u32,
            inputs.last(),
            ei,
            er,
        );
    }
}

proof fn lemma_ingested(
    s: Shelf,
    known: nat,
    inputs: Seq<Seq<ItemView>>,
    ei: spec_fn(ItemView) -> Seq<u8>,
    er: spec_fn(ResponseItemView) -> Seq<u8>,
)
    requires
        well_named(s),
        all_have_ids(inputs),
        ingested(s, known, inputs, ei, er).records.len() <= usize::MAX,
    ensures
        ({
            let t = ingested(s, known, inputs, ei, er);
            &&& well_named(t)
            &&& keeps_names(s, t)
            &&& forall|k: int| 0 <= k < inputs.len() ==> all_known(t, #[trigger] inputs[k])
        }),
    decreases inputs.len(),
{
    if inputs.len() > 0 {
        let head = inputs.drop_last();
        let n = inputs.len() - 1;
        let index = (known + inputs.len() - 1) as u32;
        let mid = ingested(s, known, head, ei, er);
        let t = ingested(s, known, inputs, ei, er);
        assert forall|k: int, j: int| 0 <= k < head.len() && 0 <= j < head[k].len() implies (
        #[trigger] head[k][j]).conversation.id is Some by {
            assert(inputs[k][j] == head[k][j]);
        }
        lemma_ingested_ok(s, known, head, ei, er);
        lemma_shelved_all_len(mid, index, inputs.last(), ei, er);
        lemma_ingested(s, known, head, ei, er);
        lemma_shelved_all(mid, index, inputs.last(), ei, er);
        assert forall|k: int| 0 <= k < inputs.len() implies all_known(t, #[trigger] inputs[k]) by {
            if k < n {
                assert(head[k] == inputs[k]);
                assert(all_known(mid, head[k]));
            } else {
                assert forall|j: int| 0 <= j < inputs[k].len() implies (
                #[trigger] inputs[k][j]).conversation.id is Some && t.by_id.contains_key(
                    inputs[k][j].conversation.id->0,
                ) by {}
            }
        }
    }
}

proof fn lemma_known_items(
    s: Shelf,
    export_index: u32,
    items: Seq<ItemView>,
    ei: spec_fn(ItemView) -> Seq<u8>,
    er: spec_fn(ResponseItemView) -> Seq<u8>,
)
    requires
        shelf_ok(s),
        all_known(s, items),
    ensures
        shelf_ok(shelved_all(s, export_index, items, ei, er)),
        shelved_all(s, export_index, items, ei, er).records.len() == s.records.len(),
        shelved_all(s, export_index, items, ei, er).by_id == s.by_id,
    decreases items.len(),
{
    if items.len() > 0 {
        let head = items.drop_last();
        assert forall|j: int| 0 <= j < head.len() implies (#[trigger] head[j]).conversation.id
            is Some && s.by_id.contains_key(head[j].conversation.id->0) by {
            assert(items[j] == head[j]);
        }
        lemma_known_items(s, export_index, head, ei, er);
        assert(items.last() == items[items.len() - 1]);
    }
}

proof fn lemma_known_inputs(
    s: Shelf,
    known: nat,
    inputs: Seq<Seq<ItemView>>,
    ei: spec_fn(ItemView) -> Seq<u8>,
    er: spec_fn(ResponseItemView) -> Seq<u8>,
)
    requires
        shelf_ok(s),
        forall|k: int| 0 <= k < inputs.len() ==> all_known(s, #[trigger] inputs[k]),
    ensures
        shelf_ok(ingested(s, known, inputs, ei, er)),
        ingested(s, known, inputs, ei, er).records.len() == s.records.len(),
        ingested(s, known, inputs, ei, er).by_id == s.by_id,
    decreases inputs.len(),
{
    if inputs.len() > 0 {
        let head = inputs.drop_last();
        assert forall|k: int| 0 <= k < head.len() implies all_known(s, #[trigger] head[k]) by {
            assert(inputs[k] == head[k]);
        }
        lemma_known_inputs(s, known, head, ei, er);
        assert(all_known(s, inputs[inputs.len() - 1]));
        lemma_known_items(
            ingested(s, known, head, ei, er),
            (known + inputs.len() - 1) as u32,
            inputs.last(),
            ei,
            er,
        );
    }
}

proof fn lemma_ids(v: Seq<RecordView>)
    requires
        v.len() <= usize::MAX,
    ensures
        forall|id: Seq<char>| #[trigger]
            ids_of(v).contains_key(id) ==> ids_of(v)[id] < v.len() && known_id(
                v[ids_of(v)[id] as int],
            ) == Some(id),
        forall|i: int|
            0 <= i < v.len() && known_id(#[trigger] v[i]) is Some ==> ids_of(v).contains_key(
                known_id(v[i])->0,
            ),
    decreases v.len(),
{
    if v.len() > 0 {
        let head = v.drop_last();
        lemma_ids(head);
        assert forall|id: Seq<char>| #[trigger] ids_of(v).contains_key(id) implies ids_of(v)[id]
            < v.len() && known_id(v[ids_of(v)[id] as int]) == Some(id) by {
            if known_id(v.last()) != Some(id) {
                assert(ids_of(head).contains_key(id));
                assert(head[ids_of(head)[id] as int] == v[ids_of(head)[id] as int]);
            }
        }
        assert forall|i: int| 0 <= i < v.len() && known_id(#[trigger] v[i]) is Some implies ids_of(
            v,
        ).contains_key(known_id(v[i])->0) by {
            if i < head.len() {
                assert(head[i] == v[i]);
            }
        }
    }
}

proof fn lemma_reopened(
    s: Shelf,
    ei: spec_fn(ItemView) -> Seq<u8>,
    er: spec_fn(ResponseItemView) -> Seq<u8>,
)
    requires
        well_named(s),
        s.records.len() <= usize::MAX,
    ensures
        well_named(reopened(s, ei, er)),
        keeps_names(s, reopened(s, ei, er)),
        reopened(s, ei, er).records.len() == s.records.len(),
{
    let t = reopened(s, ei, er);
    lemma_ids(t.records);
    assert forall|id: Seq<char>| #[trigger] s.by_id.contains_key(id) implies t.by_id.contains_key(
        id,
    ) by {
        let p = s.by_id[id] as int;
        assert(t.records[p].item == s.records[p].item);
        assert(known_id(t.records[p]) == Some(id));
    }
}

/// A second ingest of the same exports into the archive that the first one
/// wrote keeps the number of conversations, where every conversation has an
/// id.
pub proof fn law_second_ingest_adds_no_conversation(
    s: Shelf,
    known: nat,
    inputs: Seq<Seq<ItemView>>,
    ei: spec_fn(ItemView) -> Seq<u8>,
    er: spec_fn(ResponseItemView) -> Seq<u8>,
)
    requires
        well_named(s),
        all_have_ids(inputs),
        ingested(s, known, inputs, ei, er).records.len() <= usize::MAX,
    ensures
        ingested(
            reopened(ingested(s, known, inputs, ei, er), ei, er),
            known + inputs.len(),
            inputs,
            ei,
            er,
        ).records.len() == ingested(s, known, inputs, ei, er).records.len(),
{
    let one = ingested(s, known, inputs, ei, er);
    let base = reopened(one, ei, er);
    lemma_ingested(s, known, inputs, ei, er);
    lemma_reopened(one, ei, er);
    assert forall|k: int| 0 <= k < inputs.len() implies all_known(base, #[trigger] inputs[k]) by {
        assert(all_known(one, inputs[k]));
    }
    lemma_known_inputs(base, known + inputs.len(), inputs, ei, er);
}

/// Nothing gathered yet is well named.
pub proof fn law_a_first_ingest_starts_well_named()
    ensures
        well_named(Shelf { records: Seq::empty(), idents: Seq::empty(), by_id: Map::empty() }),
{
}

/// The list of exports after more were read, each closed in turn.
pub open spec fn exports_listed(
    known: Seq<ExportManifest>,
    closed: Seq<ExportManifest>,
) -> Seq<ExportManifest>
    decreases closed.len(),
{
    if closed.len() == 0 {
        known
    } else {
        exports_listed(known, closed.drop_last()).push(closed.last())
    }
}

proof fn lemma_exports_listed(known: Seq<ExportManifest>, closed: Seq<ExportManifest>)
    ensures
        exports_listed(known, closed) == known + closed,
    decreases closed.len(),
{
    if closed.len() > 0 {
        lemma_exports_listed(known, closed.drop_last());
        assert((known + closed.drop_last()).push(closed.last()) =~= known + closed);
    } else {
        assert(known + closed =~= known);
    }
}

/// A second ingest of as many exports as the first one lists twice as many:
/// those of the first stay in their places.
pub proof fn law_second_ingest_lists_its_exports(
    first: Seq<ExportManifest>,
    second: Seq<ExportManifest>,
)
    requires
        first.len() == second.len(),
    ensures
        exports_listed(exports_listed(Seq::empty(), first), second).len() == 2 * first.len(),
        exports_listed(exports_listed(Seq::empty(), first), second) == first + second,
{
    lemma_exports_listed(Seq::empty(), first);
    assert(Seq::<ExportManifest>::empty() + first =~= first);
    lemma_exports_listed(first, second);
}

} // verus!
