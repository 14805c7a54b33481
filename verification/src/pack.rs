//! Packing what an ingest gathered into the parts of an archive, and taking
//! an archive as the base of the next ingest.
use vstd::hash_map::StringHashMap;
use vstd::prelude::*;

use crate::archive::{u32_fit_usize, unfit_text, TextSpan};
use crate::catalog::{
    asset_views, record_items, record_views, ArchiveRoot, AssetEntry, AssetView,
    ConversationRecord, RecordView,
};
use crate::codec::{encode, encoder, fails_on, faithful, root_of};
use crate::hash::{bao_tree_of, blob_slice, hash_bytes, pack_blob, Digest, PackedBao};
use crate::ingest::{
    body_views, digest_views, files_whole, identity, identity_of, identity_views, item_failed,
    modified_time, roots_of, time_of, Accumulator, IdentityView, ItemIdentity,
};
use crate::records::{ConversationItem, ItemView, ResponseItem, ResponseItemView};
use crate::search::copied_opt;
use crate::spans::{all_pieces, build_text, pieces_spans, pieces_text};
use crate::zip::MAX_UNCOMPRESSED;
use crate::Error;

verus! {

/// Counts of an ingest.
#[derive(Debug, Clone, PartialEq, Eq)]
pub struct IngestReport {
    pub output: String,
    pub exports: usize,
    pub conversations: usize,
}

/// The parts of an archive that is ready to be written.
pub struct Packed {
    pub root: ArchiveRoot,
    pub text: String,
    pub spans: Vec<TextSpan>,
    pub bao: PackedBao,
    pub report: IngestReport,
}

/// The encodings of conversations one after the other.
pub open spec fn items_bytes(v: Seq<ItemView>, ei: spec_fn(ItemView) -> Seq<u8>) -> Seq<u8>
    decreases v.len(),
{
    if v.len() == 0 {
        Seq::empty()
    } else {
        items_bytes(v.drop_last(), ei) + ei(v.last())
    }
}

/// The bodies of files one after the other.
pub open spec fn bodies_bytes(v: Seq<Seq<u8>>) -> Seq<u8>
    decreases v.len(),
{
    if v.len() == 0 {
        Seq::empty()
    } else {
        bodies_bytes(v.drop_last()) + v.last()
    }
}

/// A row with the place of its encoding in the blob.
pub open spec fn placed_record(r: RecordView, off: nat, bytes: Seq<u8>) -> RecordView {
    RecordView {
        byte_len: bytes.len() as u64,
        blob_off: off as u64,
        blob_len: bytes.len() as u64,
        id: r.item.conversation.id,
        modified: time_of(r.item),
        ..r
    }
}

/// The rows with the places of their encodings in the blob.
pub open spec fn placed_records(
    v: Seq<RecordView>,
    ei: spec_fn(ItemView) -> Seq<u8>,
) -> Seq<RecordView> {
    Seq::new(
        v.len(),
        |i: int|
            placed_record(v[i], items_bytes(record_items(v).take(i), ei).len(), ei(v[i].item)),
    )
}

/// The rows of files with the places of their bodies after the first
/// `start` bytes of the blob.
pub open spec fn placed_assets(v: Seq<AssetView>, bodies: Seq<Seq<u8>>, start: nat) -> Seq<
    AssetView,
> {
    Seq::new(
        v.len(),
        |i: int|
            AssetView {
                blob_off: (start + bodies_bytes(bodies.take(i)).len()) as u64,
                blob_len: bodies[i].len() as u64,
                ..v[i]
            },
    )
}

/// The blob: all encodings, after them all bodies.
pub open spec fn blob_of(
    items: Seq<ItemView>,
    bodies: Seq<Seq<u8>>,
    ei: spec_fn(ItemView) -> Seq<u8>,
) -> Seq<u8> {
    items_bytes(items, ei) + bodies_bytes(bodies)
}

/// `p` is what `a` packs into.
pub open spec fn is_packed(
    a: Accumulator,
    output: Seq<char>,
    ei: spec_fn(ItemView) -> Seq<u8>,
    p: Packed,
) -> bool {
    let records = record_views(a.conversations@);
    let items = record_items(records);
    let bodies = body_views(a.asset_bodies@);
    let pieces = all_pieces(items);
    &&& p.root.exports == a.exports
    &&& p.root.media_posts == a.media_posts
    &&& p.root.projects == a.projects
    &&& p.root.tasks == a.tasks
    &&& p.root.auth == a.auth
    &&& p.root.billing == a.billing
    &&& record_views(p.root.conversations@) == placed_records(records, ei)
    &&& asset_views(p.root.assets@) == placed_assets(
        asset_views(a.assets@),
        bodies,
        items_bytes(items, ei).len(),
    )
    &&& p.bao.blob@ == blob_of(items, bodies, ei)
    &&& (p.bao.root@, p.bao.outboard@) == bao_tree_of(p.bao.blob@)
    &&& p.text@ == pieces_text(pieces)
    &&& p.spans@ == pieces_spans(pieces)
    &&& p.report.output@ == output
    &&& p.report.exports == a.exports@.len()
    &&& p.report.conversations == a.conversations@.len()
}

/// The error is an ingest error with this text.
pub open spec fn says(e: Error, text: Seq<char>) -> bool {
    match e {
        Error::Ingest(m) => m@ == text,
        _ => false,
    }
}

/// Encoding one of these conversations failed with this error.
pub open spec fn records_failed<F: Fn(&ConversationItem) -> Result<Vec<u8>, Error>>(
    f: F,
    items: Seq<ItemView>,
    e: Error,
) -> bool {
    exists|i: int| 0 <= i < items.len() && #[trigger] fails_on::<ConversationItem, F>(f, items[i], e)
}

/// The error with which packing is refused.
pub open spec fn pack_refusal<F: Fn(&ConversationItem) -> Result<Vec<u8>, Error>>(
    a: Accumulator,
    f: F,
    e: Error,
) -> bool {
    if a.conversations@.len() > u32::MAX {
        says(e, unfit_text(a.conversations@.len(), "conversation count"@))
    } else if a.assets@.len() > u32::MAX {
        says(e, unfit_text(a.assets@.len(), "asset count"@))
    } else if a.conversations@.len() != a.idents@.len() {
        says(e, "conversation identity list diverged"@)
    } else {
        ||| records_failed(f, record_items(record_views(a.conversations@)), e)
        ||| (a.assets@.len() != a.asset_digests@.len() || a.assets@.len()
            != a.asset_bodies@.len()) && says(e, "asset catalog and digest lists diverged"@)
    }
}

/// Nothing but a failing encoding stands in the way of packing.
pub open spec fn packable(a: Accumulator) -> bool {
    &&& a.conversations@.len() <= u32::MAX
    &&& a.assets@.len() <= u32::MAX
    &&& a.conversations@.len() == a.idents@.len()
    &&& a.assets@.len() == a.asset_digests@.len()
    &&& a.assets@.len() == a.asset_bodies@.len()
}

/// Sets the place of each row's encoding, and appends the encodings to the
/// empty blob.
fn place_records<F: Fn(&ConversationItem) -> Result<Vec<u8>, Error>>(
    records: Vec<ConversationRecord>,
    f: &F,
) -> (r: Result<(Vec<ConversationRecord>, Vec<u8>), Error>)
    requires
        faithful::<ConversationItem, F>(*f),
    ensures
        match r {
            Ok((v, blob)) => {
                let ei = encoder::<ConversationItem, F>(*f);
                &&& record_views(v@) == placed_records(record_views(records@), ei)
                &&& blob@ == items_bytes(record_items(record_views(records@)), ei)
            },
            Err(e) => records_failed(*f, record_items(record_views(records@)), e),
        },
{
    let ghost ei = encoder::<ConversationItem, F>(*f);
    let ghost given = record_views(records@);
    let ghost items = record_items(given);
    let ghost want = placed_records(given, ei);
    let mut rows = records;
    let mut blob: Vec<u8> = Vec::new();
    let mut i: usize = 0;
    proof {
        assert(items.take(0) =~= Seq::<ItemView>::empty());
    }
    while i < rows.len()
        invariant
            faithful::<ConversationItem, F>(*f),
            ei == encoder::<ConversationItem, F>(*f),
            i <= rows@.len(),
            rows@.len() == given.len(),
            given == record_views(records@),
            items == record_items(given),
            want == placed_records(given, ei),
            blob@ == items_bytes(items.take(i as int), ei),
            forall|k: int| 0 <= k < i ==> (#[trigger] rows@[k])@ == want[k],
            forall|k: int| i <= k < given.len() ==> (#[trigger] rows@[k])@ == given[k],
        decreases rows.len() - i,
    {
        let encoded = match encode(f, &rows[i].item) {
            Ok(v) => v,
            Err(e) => {
                assert(rows@[i as int]@ == given[i as int]);
                assert(fails_on::<ConversationItem, F>(*f, items[i as int], e));
                return Err(e);
            },
        };
        let off: usize = blob.len();
        let size: usize = encoded.len();
        let id = copied_opt(&rows[i].item.conversation.id);
        let modified = modified_time(&rows[i].item);
        rows[i].byte_len = size as u64;
        rows[i].blob_off = off as u64;
        rows[i].blob_len = size as u64;
        rows[i].id = id;
        rows[i].modified = modified;
        blob.extend_from_slice(encoded.as_slice());
        proof {
            assert(items.take(i + 1).drop_last() =~= items.take(i as int));
            assert(blob@ =~= items_bytes(items.take(i as int), ei) + encoded@);
        }
        i = i + 1;
    }
    proof {
        assert(items.take(items.len() as int) =~= items);
        assert(record_views(rows@) =~= want);
    }
    Ok((rows, blob))
}

/// Sets the place of each file's body, and appends the bodies to the blob.
fn place_assets(assets: Vec<AssetEntry>, bodies: &Vec<Vec<u8>>, blob: &mut Vec<u8>) -> (r: Vec<
    AssetEntry,
>)
    requires
        assets@.len() == bodies@.len(),
    ensures
        final(blob)@ == old(blob)@ + bodies_bytes(body_views(bodies@)),
        asset_views(r@) == placed_assets(
            asset_views(assets@),
            body_views(bodies@),
            old(blob)@.len(),
        ),
{
    let ghost start = blob@;
    let ghost given = asset_views(assets@);
    let ghost all = body_views(bodies@);
    let ghost want = placed_assets(given, all, start.len());
    let mut assets = assets;
    let mut i: usize = 0;
    proof {
        assert(all.take(0) =~= Seq::<Seq<u8>>::empty());
        assert(start + bodies_bytes(all.take(0)) =~= start);
    }
    while i < assets.len()
        invariant
            i <= assets@.len(),
            assets@.len() == given.len(),
            assets@.len() == bodies@.len(),
            all == body_views(bodies@),
            want == placed_assets(given, all, start.len()),
            blob@ == start + bodies_bytes(all.take(i as int)),
            forall|k: int| 0 <= k < i ==> (#[trigger] assets@[k])@ == want[k],
            forall|k: int| i <= k < given.len() ==> (#[trigger] assets@[k])@ == given[k],
        decreases assets.len() - i,
    {
        let off: usize = blob.len();
        let size: usize = bodies[i].len();
        assets[i].blob_off = off as u64;
        assets[i].blob_len = size as u64;
        blob.extend_from_slice(bodies[i].as_slice());
        proof {
            assert(all.take(i + 1).drop_last() =~= all.take(i as int));
            assert(blob@ =~= start + bodies_bytes(all.take(i + 1)));
        }
        i = i + 1;
    }
    proof {
        assert(all.take(all.len() as int) =~= all);
        assert(asset_views(assets@) =~= want);
    }
    assets
}

impl Accumulator {
    /// Packs everything. `f` encodes conversations.
    pub fn pack<F: Fn(&ConversationItem) -> Result<Vec<u8>, Error>>(self, output: &str, f: &F) -> (r:
        Result<Packed, Error>)
        requires
            faithful::<ConversationItem, F>(*f),
        ensures
            match r {
                Ok(p) => {
                    &&& packable(self)
                    &&& is_packed(self, output@, encoder::<ConversationItem, F>(*f), p)
                    &&& files_whole(self.files()) ==> forall|i: int|
                        0 <= i < p.root.assets@.len() ==> (#[trigger] p.root.assets@[i]).blob_len
                            == p.root.assets@[i].size
                },
                Err(e) => pack_refusal(self, *f, e),
            },
    {
        let ghost ei = encoder::<ConversationItem, F>(*f);
        let ghost items = record_items(record_views(self.conversations@));
        match u32_fit_usize(self.conversations.len(), "conversation count") {
            Ok(_) => {},
            Err(e) => {
                return Err(e);
            },
        }
        match u32_fit_usize(self.assets.len(), "asset count") {
            Ok(_) => {},
            Err(e) => {
                return Err(e);
            },
        }
        if self.conversations.len() != self.idents.len() {
            return Err(Error::Ingest("conversation identity list diverged".to_owned()));
        }
        let (conversations, mut blob) = match place_records(self.conversations, f) {
            Ok(x) => x,
            Err(e) => {
                return Err(e);
            },
        };
        if self.assets.len() != self.asset_digests.len() || self.assets.len()
            != self.asset_bodies.len() {
            return Err(Error::Ingest("asset catalog and digest lists diverged".to_owned()));
        }
        let assets = place_assets(self.assets, &self.asset_bodies, &mut blob);
        let bao = pack_blob(blob);
        proof {
            assert(record_views(conversations@).len() == conversations@.len());
            assert(record_items(record_views(conversations@)) =~= items);
        }
        let (text, spans) = match build_text(&conversations) {
            Ok(x) => x,
            Err(e) => {
                proof {
                    assert(false);
                }
                return Err(e);
            },
        };
        let report = IngestReport {
            output: output.to_owned(),
            exports: self.exports.len(),
            conversations: conversations.len(),
        };
        let root = ArchiveRoot {
            exports: self.exports,
            conversations,
            media_posts: self.media_posts,
            projects: self.projects,
            tasks: self.tasks,
            auth: self.auth,
            billing: self.billing,
            assets,
        };
        proof {
            let given = self.files();
            assert(asset_views(root.assets@).len() == root.assets@.len());
            assert(asset_views(root.assets@).len() == given.assets.len());
            if files_whole(given) {
                assert forall|i: int| 0 <= i < root.assets@.len() implies (
                #[trigger] root.assets@[i]).blob_len == root.assets@[i].size by {
                    assert(asset_views(root.assets@)[i] == root.assets@[i]@);
                    assert(given.assets[i].size == given.bodies[i].len());
                }
            }
        }
        Ok(Packed { root, text, spans, bao, report })
    }
}

proof fn lemma_items_bytes_prefix(
    items: Seq<ItemView>,
    i: int,
    ei: spec_fn(ItemView) -> Seq<u8>,
)
    requires
        0 <= i < items.len(),
    ensures
        items_bytes(items.take(i), ei).len() + ei(items[i]).len() <= items_bytes(items, ei).len(),
        items_bytes(items, ei).subrange(
            items_bytes(items.take(i), ei).len() as int,
            items_bytes(items.take(i), ei).len() as int + ei(items[i]).len(),
        ) == ei(items[i]),
    decreases items.len(),
{
    let n = items.len() - 1;
    let head = items_bytes(items.drop_last(), ei);
    if i == n {
        assert(items.take(i) =~= items.drop_last());
        assert((head + ei(items.last())).subrange(
            head.len() as int,
            head.len() as int + ei(items.last()).len(),
        ) =~= ei(items.last()));
    } else {
        lemma_items_bytes_prefix(items.drop_last(), i, ei);
        assert(items.drop_last().take(i) =~= items.take(i));
        let a = items_bytes(items.take(i), ei).len() as int;
        let b = a + ei(items[i]).len();
        assert((head + ei(items.last())).subrange(a, b) =~= head.subrange(a, b));
    }
}

proof fn lemma_bodies_bytes_prefix(v: Seq<Seq<u8>>, i: int)
    requires
        0 <= i < v.len(),
    ensures
        bodies_bytes(v.take(i)).len() + v[i].len() <= bodies_bytes(v).len(),
        bodies_bytes(v).subrange(
            bodies_bytes(v.take(i)).len() as int,
            bodies_bytes(v.take(i)).len() as int + v[i].len(),
        ) == v[i],
    decreases v.len(),
{
    let n = v.len() - 1;
    let head = bodies_bytes(v.drop_last());
    if i == n {
        assert(v.take(i) =~= v.drop_last());
        assert((head + v.last()).subrange(head.len() as int, head.len() as int + v.last().len())
            =~= v.last());
    } else {
        lemma_bodies_bytes_prefix(v.drop_last(), i);
        assert(v.drop_last().take(i) =~= v.take(i));
        let a = bodies_bytes(v.take(i)).len() as int;
        let b = a + v[i].len();
        assert((head + v.last()).subrange(a, b) =~= head.subrange(a, b));
    }
}

/// The blob range of a packed row holds the encoding of its conversation.
pub proof fn law_rows_find_their_encoding(
    records: Seq<RecordView>,
    bodies: Seq<Seq<u8>>,
    ei: spec_fn(ItemView) -> Seq<u8>,
    i: int,
)
    requires
        0 <= i < records.len(),
        blob_of(record_items(records), bodies, ei).len() <= u64::MAX,
    ensures
        ({
            let blob = blob_of(record_items(records), bodies, ei);
            let row = placed_records(records, ei)[i];
            &&& row.blob_off + row.blob_len <= blob.len()
            &&& blob.subrange(row.blob_off as int, row.blob_off + row.blob_len) == ei(row.item)
            &&& row.byte_len == row.blob_len
        }),
{
    let items = record_items(records);
    let head = items_bytes(items, ei);
    lemma_items_bytes_prefix(items, i, ei);
    let a = items_bytes(items.take(i), ei).len() as int;
    let b = a + ei(items[i]).len();
    assert((head + bodies_bytes(bodies)).subrange(a, b) =~= head.subrange(a, b));
}

/// The blob range of a packed file holds its body.
pub proof fn law_files_find_their_body(
    items: Seq<ItemView>,
    assets: Seq<AssetView>,
    bodies: Seq<Seq<u8>>,
    ei: spec_fn(ItemView) -> Seq<u8>,
    i: int,
)
    requires
        0 <= i < assets.len(),
        assets.len() == bodies.len(),
        blob_of(items, bodies, ei).len() <= u64::MAX,
    ensures
        ({
            let blob = blob_of(items, bodies, ei);
            let row = placed_assets(assets, bodies, items_bytes(items, ei).len())[i];
            &&& row.blob_off + row.blob_len <= blob.len()
            &&& blob.subrange(row.blob_off as int, row.blob_off + row.blob_len) == bodies[i]
        }),
{
    let head = items_bytes(items, ei);
    let tail = bodies_bytes(bodies);
    lemma_bodies_bytes_prefix(bodies, i);
    let a = bodies_bytes(bodies.take(i)).len() as int;
    let b = a + bodies[i].len();
    assert((head + tail).subrange(head.len() + a, head.len() + b) =~= tail.subrange(a, b));
}

/// Where the blob ranges of the first `n` rows end.
pub open spec fn rows_end(rows: Seq<RecordView>, n: int) -> int {
    if n <= 0 {
        0
    } else {
        rows[n - 1].blob_off + rows[n - 1].blob_len
    }
}

/// Where the blob ranges of the first `n` files end, which come after
/// `start` bytes.
pub open spec fn files_end(files: Seq<AssetView>, start: int, n: int) -> int {
    if n <= 0 {
        start
    } else {
        files[n - 1].blob_off + files[n - 1].blob_len
    }
}

/// The blob ranges lie end to end, those of the conversations first and those
/// of the files after them, and cover the blob.
pub proof fn law_ranges_tile_the_blob(
    records: Seq<RecordView>,
    assets: Seq<AssetView>,
    bodies: Seq<Seq<u8>>,
    ei: spec_fn(ItemView) -> Seq<u8>,
)
    requires
        assets.len() == bodies.len(),
        blob_of(record_items(records), bodies, ei).len() <= u64::MAX,
    ensures
        ({
            let items = record_items(records);
            let rows = placed_records(records, ei);
            let start = rows_end(rows, rows.len() as int);
            let files = placed_assets(assets, bodies, items_bytes(items, ei).len());
            &&& forall|i: int|
                0 <= i < rows.len() ==> (#[trigger] rows[i]).blob_off == rows_end(rows, i)
            &&& forall|i: int|
                0 <= i < files.len() ==> (#[trigger] files[i]).blob_off == files_end(
                    files,
                    start,
                    i,
                )
            &&& files_end(files, start, files.len() as int) == blob_of(items, bodies, ei).len()
        }),
{
    let items = record_items(records);
    let rows = placed_records(records, ei);
    let total = items_bytes(items, ei).len();
    let files = placed_assets(assets, bodies, total);
    let start = rows_end(rows, rows.len() as int);
    assert forall|n: int| 0 <= n <= rows.len() implies #[trigger] rows_end(rows, n) == items_bytes(
        items.take(n),
        ei,
    ).len() by {
        if n > 0 {
            lemma_items_bytes_prefix(items, n - 1, ei);
            assert(items.take(n).drop_last() =~= items.take(n - 1));
            assert(items[n - 1] == records[n - 1].item);
        } else {
            assert(items.take(0) =~= Seq::<ItemView>::empty());
        }
    }
    assert(items.take(items.len() as int) =~= items);
    assert(start == total);
    assert forall|i: int| 0 <= i < rows.len() implies (#[trigger] rows[i]).blob_off == rows_end(
        rows,
        i,
    ) by {
        lemma_items_bytes_prefix(items, i, ei);
        assert(items[i] == records[i].item);
    }
    assert forall|n: int| 0 <= n <= files.len() implies #[trigger] files_end(files, start, n)
        == total + bodies_bytes(bodies.take(n)).len() by {
        if n > 0 {
            lemma_bodies_bytes_prefix(bodies, n - 1);
            assert(bodies.take(n).drop_last() =~= bodies.take(n - 1));
        } else {
            assert(bodies.take(0) =~= Seq::<Seq<u8>>::empty());
        }
    }
    assert(bodies.take(bodies.len() as int) =~= bodies);
    assert forall|i: int| 0 <= i < files.len() implies (#[trigger] files[i]).blob_off == files_end(
        files,
        start,
        i,
    ) by {
        lemma_bodies_bytes_prefix(bodies, i);
    }
}

/// The row that an archive row's id names: the last one with it.
pub open spec fn ids_of(v: Seq<RecordView>) -> Map<Seq<char>, usize>
    decreases v.len(),
{
    if v.len() == 0 {
        Map::empty()
    } else {
        let m = ids_of(v.drop_last());
        match known_id(v.last()) {
            Some(id) => m.insert(id, (v.len() - 1) as usize),
            None => m,
        }
    }
}

/// The id of a row, else that of its conversation.
pub open spec fn known_id(r: RecordView) -> Option<Seq<char>> {
    if r.id is Some {
        r.id
    } else {
        r.item.conversation.id
    }
}

/// The body of a file lies in the blob.
pub open spec fn body_inside(a: AssetView, blob: Seq<u8>) -> bool {
    a.blob_off + a.blob_len <= blob.len()
}

/// The stored bodies of files.
pub open spec fn stored_bodies(assets: Seq<AssetView>, blob: Seq<u8>) -> Seq<Seq<u8>> {
    Seq::new(
        assets.len(),
        |i: int| blob.subrange(assets[i].blob_off as int, assets[i].blob_off + assets[i].blob_len),
    )
}

/// The identities of rows.
pub open spec fn identities_of(
    records: Seq<RecordView>,
    ei: spec_fn(ItemView) -> Seq<u8>,
    er: spec_fn(ResponseItemView) -> Seq<u8>,
) -> Seq<IdentityView> {
    Seq::new(records.len(), |i: int| identity(records[i].item, ei, er))
}

proof fn lemma_ids_inside(v: Seq<RecordView>)
    requires
        v.len() <= usize::MAX,
    ensures
        forall|id: Seq<char>| #[trigger] ids_of(v).contains_key(id) ==> ids_of(v)[id] < v.len(),
    decreases v.len(),
{
    if v.len() > 0 {
        let m = ids_of(v.drop_last());
        lemma_ids_inside(v.drop_last());
        assert forall|id: Seq<char>| #[trigger] ids_of(v).contains_key(id) implies ids_of(v)[id]
            < v.len() by {
            if known_id(v.last()) != Some(id) {
                assert(m.contains_key(id));
            }
        }
    }
}

fn index_rows(records: &Vec<ConversationRecord>) -> (r: StringHashMap<usize>)
    ensures
        r@ == ids_of(record_views(records@)),
{
    let ghost all = record_views(records@);
    let mut r: StringHashMap<usize> = StringHashMap::new();
    let mut i: usize = 0;
    proof {
        assert(all.take(0) =~= Seq::<RecordView>::empty());
    }
    while i < records.len()
        invariant
            i <= records@.len(),
            all == record_views(records@),
            r@ == ids_of(all.take(i as int)),
        decreases records.len() - i,
    {
        proof {
            assert(all.take(i + 1).drop_last() =~= all.take(i as int));
            assert(all.take(i + 1).last() == records@[i as int]@);
        }
        let id = if records[i].id.is_some() {
            copied_opt(&records[i].id)
        } else {
            copied_opt(&records[i].item.conversation.id)
        };
        if let Some(key) = id {
            r.insert(key, i);
        }
        i = i + 1;
    }
    proof {
        assert(all.take(all.len() as int) =~= all);
    }
    r
}

/// The stored bodies of files with their digests.
fn read_bodies(assets: &Vec<AssetEntry>, blob: &[u8]) -> (r: Result<
    (Vec<Vec<u8>>, Vec<Digest>),
    Error,
>)
    ensures
        match r {
            Ok((bodies, digests)) => {
                &&& forall|i: int|
                    0 <= i < assets@.len() ==> body_inside((#[trigger] assets@[i])@, blob@)
                &&& body_views(bodies@) == stored_bodies(asset_views(assets@), blob@)
                &&& digest_views(digests@) == roots_of(body_views(bodies@))
            },
            Err(e) => e == Error::InvalidArchive && exists|i: int|
                0 <= i < assets@.len() && !body_inside((#[trigger] assets@[i])@, blob@),
        },
{
    let mut bodies: Vec<Vec<u8>> = Vec::new();
    let mut digests: Vec<Digest> = Vec::new();
    let mut i: usize = 0;
    while i < assets.len()
        invariant
            i <= assets@.len(),
            bodies@.len() == i,
            digests@.len() == i,
            forall|k: int| 0 <= k < i ==> body_inside((#[trigger] assets@[k])@, blob@),
            forall|k: int|
                0 <= k < i ==> (#[trigger] bodies@[k])@ == blob@.subrange(
                    assets@[k].blob_off as int,
                    assets@[k].blob_off + assets@[k].blob_len,
                ),
            forall|k: int| 0 <= k < i ==> (#[trigger] digests@[k]).root@ == root_of(bodies@[k]@),
        decreases assets.len() - i,
    {
        let slice = match blob_slice(blob, assets[i].blob_off, assets[i].blob_len) {
            Ok(s) => s,
            Err(e) => {
                proof {
                    assert(!body_inside(assets@[i as int]@, blob@));
                }
                return Err(e);
            },
        };
        let mut body: Vec<u8> = Vec::new();
        body.extend_from_slice(slice);
        proof {
            assert(body@ =~= slice@);
        }
        digests.push(hash_bytes(slice));
        bodies.push(body);
        i = i + 1;
    }
    proof {
        assert(body_views(bodies@) =~= stored_bodies(asset_views(assets@), blob@));
        assert(digest_views(digests@) =~= roots_of(body_views(bodies@)));
    }
    Ok((bodies, digests))
}

impl Accumulator {
    /// Takes the records of an archive as the base of an ingest. `blob` is
    /// the hashed blob of the archive, `f` encodes conversations and `g`
    /// responses.
    pub fn from_archive<
        F: Fn(&ConversationItem) -> Result<Vec<u8>, Error>,
        G: Fn(&ResponseItem) -> Result<Vec<u8>, Error>,
    >(root: ArchiveRoot, blob: &[u8], f: &F, g: &G) -> (r: Result<Accumulator, Error>)
        requires
            faithful::<ConversationItem, F>(*f),
            faithful::<ResponseItem, G>(*g),
        ensures
            match r {
                Ok(a) => {
                    let records = record_views(root.conversations@);
                    &&& a.wf()
                    &&& forall|i: int|
                        0 <= i < root.assets@.len() ==> body_inside(
                            (#[trigger] root.assets@[i])@,
                            blob@,
                        )
                    &&& a.exports == root.exports
                    &&& a.conversations == root.conversations
                    &&& a.media_posts == root.media_posts
                    &&& a.projects == root.projects
                    &&& a.tasks == root.tasks
                    &&& a.auth == root.auth
                    &&& a.billing == root.billing
                    &&& a.assets == root.assets
                    &&& a.by_id@ == ids_of(records)
                    &&& identity_views(a.idents@) == identities_of(
                        records,
                        encoder::<ConversationItem, F>(*f),
                        encoder::<ResponseItem, G>(*g),
                    )
                    &&& body_views(a.asset_bodies@) == stored_bodies(
                        asset_views(root.assets@),
                        blob@,
                    )
                    &&& digest_views(a.asset_digests@) == roots_of(body_views(a.asset_bodies@))
                    &&& files_whole(a.files()) <==> forall|i: int|
                        0 <= i < root.assets@.len() ==> (#[trigger] root.assets@[i]).size
                            == root.assets@[i].blob_len
                    &&& a.max_uncompressed_bytes == MAX_UNCOMPRESSED
                },
                Err(e) => {
                    ||| e == Error::InvalidArchive && exists|i: int|
                        0 <= i < root.assets@.len() && !body_inside(
                            (#[trigger] root.assets@[i])@,
                            blob@,
                        )
                    ||| exists|i: int|
                        0 <= i < root.conversations@.len() && #[trigger] item_failed(
                            *f,
                            *g,
                            root.conversations@[i]@.item,
                            e,
                        )
                },
            },
    {
        let ghost ei = encoder::<ConversationItem, F>(*f);
        let ghost er = encoder::<ResponseItem, G>(*g);
        let ghost records = record_views(root.conversations@);
        let by_id = index_rows(&root.conversations);
        let (asset_bodies, asset_digests) = match read_bodies(&root.assets, blob) {
            Ok(x) => x,
            Err(e) => {
                return Err(e);
            },
        };
        let size: usize = root.conversations.len();
        let mut idents: Vec<ItemIdentity> = Vec::new();
        let mut i: usize = 0;
        while i < size
            invariant
                faithful::<ConversationItem, F>(*f),
                faithful::<ResponseItem, G>(*g),
                ei == encoder::<ConversationItem, F>(*f),
                er == encoder::<ResponseItem, G>(*g),
                size == root.conversations@.len(),
                i <= size,
                idents@.len() == i,
                forall|k: int|
                    0 <= k < i ==> (#[trigger] idents@[k])@ == identity(
                        root.conversations@[k]@.item,
                        ei,
                        er,
                    ),
            decreases size - i,
        {
            match identity_of(&root.conversations[i].item, f, g) {
                Ok(x) => {
                    idents.push(x);
                },
                Err(e) => {
                    assert(item_failed(*f, *g, root.conversations@[i as int]@.item, e));
                    return Err(e);
                },
            }
            i = i + 1;
        }
        proof {
            assert(identity_views(idents@) =~= identities_of(records, ei, er));
            lemma_ids_inside(records);
            assert(body_views(asset_bodies@).len() == asset_bodies@.len());
            assert(digest_views(asset_digests@).len() == asset_digests@.len());
        }
        let ghost kept = root.assets@;
        let r = Accumulator {
                exports: root.exports,
                conversations: root.conversations,
                by_id,
                media_posts: root.media_posts,
                projects: root.projects,
                tasks: root.tasks,
                auth: root.auth,
                billing: root.billing,
                assets: root.assets,
                asset_digests,
                asset_bodies,
                idents,
                max_uncompressed_bytes: MAX_UNCOMPRESSED,
            };
        proof {
            let whole = r.files();
            assert forall|i: int| 0 <= i < kept.len() implies (#[trigger] kept[i]).blob_len
                == whole.bodies[i].len() && kept[i].size == whole.assets[i].size by {
                assert(body_inside(kept[i]@, blob@));
            }
            if files_whole(whole) {
                assert forall|i: int| 0 <= i < kept.len() implies (#[trigger] kept[i]).size
                    == kept[i].blob_len by {
                    assert(whole.assets[i].size == whole.bodies[i].len());
                }
            }
        }
        Ok(r)
    }
}

/// A packed row names the conversation that it holds and keeps the exports that
/// it came from.
pub proof fn law_rows_keep_their_record(
    records: Seq<RecordView>,
    ei: spec_fn(ItemView) -> Seq<u8>,
    i: int,
)
    requires
        0 <= i < records.len(),
    ensures
        placed_records(records, ei).len() == records.len(),
        ({
            let row = placed_records(records, ei)[i];
            &&& row.item == records[i].item
            &&& row.id == records[i].item.conversation.id
            &&& row.modified == time_of(records[i].item)
            &&& row.export_index == records[i].export_index
            &&& row.export_indices == records[i].export_indices
        }),
{
}

/// A packed file keeps all but its place in the blob.
pub proof fn law_files_keep_their_entry(
    assets: Seq<AssetView>,
    bodies: Seq<Seq<u8>>,
    start: nat,
    i: int,
)
    requires
        0 <= i < assets.len(),
    ensures
        placed_assets(assets, bodies, start).len() == assets.len(),
        ({
            let row = placed_assets(assets, bodies, start)[i];
            &&& row.uuid == assets[i].uuid
            &&& row.relative_path == assets[i].relative_path
            &&& row.size == assets[i].size
            &&& row.mtime == assets[i].mtime
            &&& row.export_index == assets[i].export_index
            &&& row.export_indices == assets[i].export_indices
        }),
{
}

} // verus!
