//! The set of records that an ingest builds up and packs into an archive.
use vstd::hash_map::StringHashMap;
use vstd::prelude::*;

use crate::archive::{u32_fit_usize, unfit_text};
use crate::catalog::{
    asset_views, record_views, AssetEntry, AssetView, ConversationRecord, ExportManifest,
    RecordView, TaggedAuth, TaggedBilling, TaggedJson,
};
use crate::codec::{
    encode, encoder, fails_among, fails_on, faithful, hash_responses, responses_bytes, root_of,
};
use crate::hash::{hash_bytes, hex, Digest};
use crate::merge::{
    enrich_item, enriched, id_position, law_merge_keeps_every_id, merge_failed, reversed,
    same_digest,
};
use crate::paths::opt_view;
use crate::records::{
    copied_stamp, opt_stamp, ConversationItem, ItemView, ResponseItem, ResponseItemView, Stamp,
    Timestamp,
};
use crate::schema::same_atom;
use crate::search::copied_opt;
use crate::text::same_str;
use crate::zip::MAX_UNCOMPRESSED;
use crate::Error;

verus! {

/// What makes a conversation the same: its id, the length and tree root of
/// its encoding, its time, and the tree root of its responses.
pub struct ItemIdentity {
    pub id: Option<String>,
    pub byte_len: u64,
    pub modified: Option<Timestamp>,
    pub root: Digest,
    pub sub: Digest,
}

/// What an identity holds.
#[verifier::ext_equal]
pub struct IdentityView {
    pub id: Option<Seq<char>>,
    pub byte_len: u64,
    pub modified: Option<Stamp>,
    pub root: Seq<u8>,
    pub sub: Seq<u8>,
}

impl View for ItemIdentity {
    type V = IdentityView;

    open spec fn view(&self) -> IdentityView {
        IdentityView {
            id: opt_view(self.id),
            byte_len: self.byte_len,
            modified: opt_stamp(self.modified),
            root: self.root.root@,
            sub: self.sub.root@,
        }
    }
}

/// What identities hold, in order.
pub open spec fn identity_views(v: Seq<ItemIdentity>) -> Seq<IdentityView> {
    Seq::new(v.len(), |i: int| v[i]@)
}

/// Time of a conversation: of its last change, else of its creation.
pub open spec fn time_of(x: ItemView) -> Option<Stamp> {
    if x.conversation.modify_time is Some {
        x.conversation.modify_time
    } else {
        x.conversation.create_time
    }
}

/// Time of a conversation: of its last change, else of its creation.
pub fn modified_time(item: &ConversationItem) -> (r: Option<Timestamp>)
    ensures
        opt_stamp(r) == time_of(item@),
{
    if item.conversation.modify_time.is_some() {
        copied_stamp(&item.conversation.modify_time)
    } else {
        copied_stamp(&item.conversation.create_time)
    }
}

/// The identity of a conversation under the encodings `ei` of conversations
/// and `er` of responses.
pub open spec fn identity(
    x: ItemView,
    ei: spec_fn(ItemView) -> Seq<u8>,
    er: spec_fn(ResponseItemView) -> Seq<u8>,
) -> IdentityView {
    IdentityView {
        id: x.conversation.id,
        byte_len: ei(x).len() as u64,
        modified: time_of(x),
        root: root_of(ei(x)),
        sub: root_of(responses_bytes(x.responses, er)),
    }
}

/// Encoding a conversation, or one of its responses, failed with this error.
pub open spec fn item_failed<
    F: Fn(&ConversationItem) -> Result<Vec<u8>, Error>,
    G: Fn(&ResponseItem) -> Result<Vec<u8>, Error>,
>(f: F, g: G, x: ItemView, e: Error) -> bool {
    fails_on::<ConversationItem, F>(f, x, e) || fails_among(g, x.responses, e)
}

/// The identity of a conversation. `f` encodes conversations, `g` responses.
pub fn identity_of<
    F: Fn(&ConversationItem) -> Result<Vec<u8>, Error>,
    G: Fn(&ResponseItem) -> Result<Vec<u8>, Error>,
>(item: &ConversationItem, f: &F, g: &G) -> (r: Result<ItemIdentity, Error>)
    requires
        faithful::<ConversationItem, F>(*f),
        faithful::<ResponseItem, G>(*g),
    ensures
        match r {
            Ok(i) => i@ == identity(
                item@,
                encoder::<ConversationItem, F>(*f),
                encoder::<ResponseItem, G>(*g),
            ),
            Err(e) => item_failed(*f, *g, item@, e),
        },
{
    let encoded = match encode(f, item) {
        Ok(v) => v,
        Err(e) => {
            return Err(e);
        },
    };
    let sub = match hash_responses(&item.responses, g) {
        Ok(d) => d,
        Err(e) => {
            return Err(e);
        },
    };
    let byte_len: usize = encoded.len();
    Ok(
        ItemIdentity {
            id: copied_opt(&item.conversation.id),
            byte_len: byte_len as u64,
            modified: modified_time(item),
            root: hash_bytes(encoded.as_slice()),
            sub,
        },
    )
}

/// Everything but the id is the same.
pub open spec fn same_identity(a: IdentityView, b: IdentityView) -> bool {
    a.byte_len == b.byte_len && a.modified == b.modified && a.root == b.root && a.sub == b.sub
}

/// Whether two timestamps hold the same.
pub fn same_time(a: &Option<Timestamp>, b: &Option<Timestamp>) -> (r: bool)
    ensures
        r == (opt_stamp(*a) == opt_stamp(*b)),
{
    match (a, b) {
        (None, None) => true,
        (Some(Timestamp::Iso(x)), Some(Timestamp::Iso(y))) => same_str(x, y),
        (Some(Timestamp::BsonDate { date: x }), Some(Timestamp::BsonDate { date: y })) => same_atom(
            x,
            y,
        ),
        (Some(Timestamp::Other(x)), Some(Timestamp::Other(y))) => same_atom(x, y),
        _ => false,
    }
}

/// Whether everything but the id is the same.
pub fn identities_match(existing: &ItemIdentity, incoming: &ItemIdentity) -> (r: bool)
    ensures
        r == same_identity(existing@, incoming@),
{
    existing.byte_len == incoming.byte_len && same_time(&existing.modified, &incoming.modified)
        && same_digest(&existing.root, &incoming.root) && same_digest(&existing.sub, &incoming.sub)
}

/// A first row for a conversation.
pub open spec fn fresh_record(export_index: u32, ident: IdentityView, item: ItemView) -> RecordView {
    RecordView {
        export_index,
        export_indices: seq![export_index],
        byte_len: ident.byte_len,
        modified: ident.modified,
        id: ident.id,
        blob_off: 0,
        blob_len: 0,
        item,
    }
}

/// A first row for a conversation.
pub fn new_record(export_index: u32, ident: &ItemIdentity, item: ConversationItem) -> (r:
    ConversationRecord)
    ensures
        r@ == fresh_record(export_index, ident@, item@),
{
    let r = ConversationRecord {
        export_index,
        export_indices: vec![export_index],
        byte_len: ident.byte_len,
        modified: copied_stamp(&ident.modified),
        id: copied_opt(&ident.id),
        blob_off: 0,
        blob_len: 0,
        item,
    };
    proof {
        assert(r@.export_indices =~= seq![export_index]);
    }
    r
}

/// The exports with one more, once.
pub open spec fn joined_index(v: Seq<u32>, x: u32) -> Seq<u32> {
    if v.contains(x) {
        v
    } else {
        v.push(x)
    }
}

/// A row with one more export that it came from.
pub open spec fn with_provenance(r: RecordView, export_index: u32) -> RecordView {
    RecordView { export_indices: joined_index(r.export_indices, export_index), ..r }
}

/// Adds an export to a list of exports, once.
pub fn add_index(v: &mut Vec<u32>, x: u32)
    ensures
        final(v)@ == joined_index(old(v)@, x),
{
    let mut i: usize = 0;
    while i < v.len()
        invariant
            i <= v@.len(),
            v@ == old(v)@,
            forall|k: int| 0 <= k < i ==> v@[k] != x,
        decreases v.len() - i,
    {
        if v[i] == x {
            proof {
                assert(v@.contains(x));
            }
            return;
        }
        i = i + 1;
    }
    v.push(x);
}

/// The conversations of an ingest: rows, their identities, and the row of
/// each id.
#[verifier::ext_equal]
pub struct Shelf {
    pub records: Seq<RecordView>,
    pub idents: Seq<IdentityView>,
    pub by_id: Map<Seq<char>, usize>,
}

/// Every row has an identity, and every id names a row.
pub open spec fn shelf_ok(s: Shelf) -> bool {
    &&& s.records.len() == s.idents.len()
    &&& forall|id: Seq<char>| #[trigger] s.by_id.contains_key(id) ==> s.by_id[id] < s.records.len()
}

/// The conversations after one more came in. A new id, or none, makes a new
/// row. The same conversation again only adds its export. Another version
/// is merged into the row.
pub open spec fn shelved(
    s: Shelf,
    export_index: u32,
    item: ItemView,
    incoming: IdentityView,
    ei: spec_fn(ItemView) -> Seq<u8>,
    er: spec_fn(ResponseItemView) -> Seq<u8>,
) -> Shelf {
    match incoming.id {
        None => Shelf {
            records: s.records.push(fresh_record(export_index, incoming, item)),
            idents: s.idents.push(incoming),
            by_id: s.by_id,
        },
        Some(id) => if !s.by_id.contains_key(id) {
            Shelf {
                records: s.records.push(fresh_record(export_index, incoming, item)),
                idents: s.idents.push(incoming),
                by_id: s.by_id.insert(id, s.records.len() as usize),
            }
        } else {
            let p = s.by_id[id] as int;
            let held = s.records[p];
            if same_identity(s.idents[p], incoming) {
                Shelf {
                    records: s.records.update(p, with_provenance(held, export_index)),
                    idents: s.idents,
                    by_id: s.by_id,
                }
            } else {
                let merged = enriched(
                    held.item,
                    item,
                    s.idents[p].modified,
                    incoming.modified,
                    er,
                );
                let ident = identity(merged, ei, er);
                let row = RecordView {
                    item: merged,
                    byte_len: ident.byte_len,
                    modified: ident.modified,
                    id: ident.id,
                    ..held
                };
                Shelf {
                    records: s.records.update(p, with_provenance(row, export_index)),
                    idents: s.idents.update(p, ident),
                    by_id: s.by_id,
                }
            }
        },
    }
}

/// Encoding failed with this error when one more conversation came in: of the
/// responses that were merged, or of the row that they make. Only another
/// version of a known conversation is encoded.
pub open spec fn shelving_failed<
    F: Fn(&ConversationItem) -> Result<Vec<u8>, Error>,
    G: Fn(&ResponseItem) -> Result<Vec<u8>, Error>,
>(f: F, g: G, s: Shelf, item: ItemView, incoming: IdentityView, e: Error) -> bool {
    match incoming.id {
        None => false,
        Some(id) => s.by_id.contains_key(id) && {
            let p = s.by_id[id] as int;
            let held = s.records[p].item;
            &&& !same_identity(s.idents[p], incoming)
            &&& merge_failed(g, held.responses, item.responses, e) || item_failed(
                f,
                g,
                enriched(
                    held,
                    item,
                    s.idents[p].modified,
                    incoming.modified,
                    encoder::<ResponseItem, G>(g),
                ),
                e,
            )
        },
    }
}

/// Encoding failed with this error when one more conversation came in, whose
/// identity had to be found.
pub open spec fn adding_failed<
    F: Fn(&ConversationItem) -> Result<Vec<u8>, Error>,
    G: Fn(&ResponseItem) -> Result<Vec<u8>, Error>,
>(f: F, g: G, s: Shelf, item: ItemView, e: Error) -> bool {
    item_failed(f, g, item, e) || shelving_failed(
        f,
        g,
        s,
        item,
        identity(item, encoder::<ConversationItem, F>(f), encoder::<ResponseItem, G>(g)),
        e,
    )
}

/// The conversations after several more came in, in order.
pub open spec fn shelved_all(
    s: Shelf,
    export_index: u32,
    items: Seq<ItemView>,
    ei: spec_fn(ItemView) -> Seq<u8>,
    er: spec_fn(ResponseItemView) -> Seq<u8>,
) -> Shelf
    decreases items.len(),
{
    if items.len() == 0 {
        s
    } else {
        shelved(
            shelved_all(s, export_index, items.drop_last(), ei, er),
            export_index,
            items.last(),
            identity(items.last(), ei, er),
            ei,
            er,
        )
    }
}

/// What conversations hold, in order.
pub open spec fn item_views(v: Seq<ConversationItem>) -> Seq<ItemView> {
    Seq::new(v.len(), |i: int| v[i]@)
}

/// The digests of files, in order.
pub open spec fn digest_views(v: Seq<Digest>) -> Seq<Seq<u8>> {
    Seq::new(v.len(), |i: int| v[i].root@)
}

/// The bodies of files, in order.
pub open spec fn body_views(v: Seq<Vec<u8>>) -> Seq<Seq<u8>> {
    Seq::new(v.len(), |i: int| v[i]@)
}

/// An uploaded file with its digest.
pub struct HashedAsset {
    pub uuid: String,
    pub relative_path: String,
    pub size: u64,
    pub mtime: u64,
    pub bytes: Vec<u8>,
    pub digest: Digest,
}

/// What an uploaded file holds.
#[verifier::ext_equal]
pub struct HashedView {
    pub uuid: Seq<char>,
    pub relative_path: Seq<char>,
    pub size: u64,
    pub mtime: u64,
    pub bytes: Seq<u8>,
    pub digest: Seq<u8>,
}

impl View for HashedAsset {
    type V = HashedView;

    open spec fn view(&self) -> HashedView {
        HashedView {
            uuid: self.uuid@,
            relative_path: self.relative_path@,
            size: self.size,
            mtime: self.mtime,
            bytes: self.bytes@,
            digest: self.digest.root@,
        }
    }
}

/// What uploaded files hold, in order.
pub open spec fn hashed_views(v: Seq<HashedAsset>) -> Seq<HashedView> {
    Seq::new(v.len(), |i: int| v[i]@)
}

/// The size and the digest of a file are those of its body.
pub open spec fn asset_ok(x: HashedView) -> bool {
    x.size == x.bytes.len() && x.digest == root_of(x.bytes)
}

/// An uploaded file with the digest of its body.
pub fn hash_asset(uuid: String, relative_path: String, bytes: Vec<u8>, mtime: u64) -> (r:
    HashedAsset)
    ensures
        asset_ok(r@),
        r@ == (HashedView {
            uuid: uuid@,
            relative_path: relative_path@,
            size: bytes@.len() as u64,
            mtime,
            bytes: bytes@,
            digest: root_of(bytes@),
        }),
{
    let digest = hash_bytes(bytes.as_slice());
    let size: usize = bytes.len();
    HashedAsset { uuid, relative_path, size: size as u64, mtime, bytes, digest }
}

/// A picture of a social export: listed by the digest of its body.
pub fn hashed_facebook_image(relative_path: String, bytes: Vec<u8>, mtime: u64) -> (r: HashedAsset)
    ensures
        asset_ok(r@),
        r@ == (HashedView {
            uuid: hex(root_of(bytes@)),
            relative_path: relative_path@,
            size: bytes@.len() as u64,
            mtime,
            bytes: bytes@,
            digest: root_of(bytes@),
        }),
{
    let digest = hash_bytes(bytes.as_slice());
    let uuid = digest.to_hex();
    let size: usize = bytes.len();
    HashedAsset { uuid, relative_path, size: size as u64, mtime, bytes, digest }
}

/// The files of an ingest: rows, digests and bodies.
#[verifier::ext_equal]
pub struct Files {
    pub assets: Seq<AssetView>,
    pub digests: Seq<Seq<u8>>,
    pub bodies: Seq<Seq<u8>>,
}

/// Every file has a body and the digest of that body.
pub open spec fn files_ok(s: Files) -> bool {
    &&& s.assets.len() == s.bodies.len()
    &&& s.digests == roots_of(s.bodies)
}

/// Every row of a file has the size of the file's body. An archive that was
/// written with other sizes does not have this.
pub open spec fn files_whole(s: Files) -> bool {
    forall|i: int|
        0 <= i < s.assets.len() ==> (#[trigger] s.assets[i]).size == s.bodies[i].len()
}

/// The digests of bodies.
pub open spec fn roots_of(bodies: Seq<Seq<u8>>) -> Seq<Seq<u8>> {
    Seq::new(bodies.len(), |i: int| root_of(bodies[i]))
}

/// Position of the first file with the digest, or -1.
pub open spec fn digest_position(digests: Seq<Seq<u8>>, d: Seq<u8>) -> int
    decreases digests.len(),
{
    if digests.len() == 0 {
        -1
    } else {
        let p = digest_position(digests.drop_last(), d);
        if p >= 0 {
            p
        } else if digests.last() == d {
            digests.len() - 1
        } else {
            -1
        }
    }
}

/// Position of the first row without a stored body and with the uuid, or -1.
pub open spec fn bare_position(assets: Seq<AssetView>, uuid: Seq<char>) -> int
    decreases assets.len(),
{
    if assets.len() == 0 {
        -1
    } else {
        let p = bare_position(assets.drop_last(), uuid);
        if p >= 0 {
            p
        } else if assets.last().blob_len == 0 && assets.last().uuid == uuid {
            assets.len() - 1
        } else {
            -1
        }
    }
}

/// A row with one more export that it came from.
pub open spec fn asset_from(a: AssetView, export_index: u32) -> AssetView {
    AssetView { export_indices: joined_index(a.export_indices, export_index), ..a }
}

/// A first row for a file.
pub open spec fn fresh_asset(export_index: u32, x: HashedView) -> AssetView {
    AssetView {
        export_index,
        export_indices: seq![export_index],
        uuid: x.uuid,
        relative_path: x.relative_path,
        size: x.size,
        mtime: x.mtime,
        blob_off: 0,
        blob_len: 0,
    }
}

/// The files after one more came in. A known digest only adds its export,
/// and so does a file without a body that is listed under its uuid.
pub open spec fn filed(s: Files, export_index: u32, x: HashedView) -> Files {
    let p = digest_position(s.digests, x.digest);
    let q = bare_position(s.assets, x.uuid);
    if p >= 0 {
        Files { assets: s.assets.update(p, asset_from(s.assets[p], export_index)), ..s }
    } else if x.bytes.len() == 0 && q >= 0 {
        Files { assets: s.assets.update(q, asset_from(s.assets[q], export_index)), ..s }
    } else {
        Files {
            assets: s.assets.push(fresh_asset(export_index, x)),
            digests: s.digests.push(x.digest),
            bodies: s.bodies.push(x.bytes),
        }
    }
}

/// The files after several more came in, in order.
pub open spec fn filed_all(s: Files, export_index: u32, v: Seq<HashedView>) -> Files
    decreases v.len(),
{
    if v.len() == 0 {
        s
    } else {
        filed(filed_all(s, export_index, v.drop_last()), export_index, v.last())
    }
}

/// Everything that an ingest has gathered.
pub struct Accumulator {
    pub exports: Vec<ExportManifest>,
    pub conversations: Vec<ConversationRecord>,
    /// Row of each conversation id.
    pub by_id: StringHashMap<usize>,
    pub media_posts: Vec<TaggedJson>,
    pub projects: Vec<TaggedJson>,
    pub tasks: Vec<TaggedJson>,
    pub auth: Vec<TaggedAuth>,
    pub billing: Vec<TaggedBilling>,
    pub assets: Vec<AssetEntry>,
    /// Tree roots of the file bodies, one for each of `assets`.
    pub asset_digests: Vec<Digest>,
    /// File bodies, one for each of `assets`.
    pub asset_bodies: Vec<Vec<u8>>,
    /// Identities, one for each of `conversations`.
    pub idents: Vec<ItemIdentity>,
    /// Zip entries above this size are skipped. 0 stands for the default.
    pub max_uncompressed_bytes: u64,
}

impl Accumulator {
    /// The conversations.
    pub open spec fn shelf(self) -> Shelf {
        Shelf {
            records: record_views(self.conversations@),
            idents: identity_views(self.idents@),
            by_id: self.by_id@,
        }
    }

    /// The files.
    pub open spec fn files(self) -> Files {
        Files {
            assets: asset_views(self.assets@),
            digests: digest_views(self.asset_digests@),
            bodies: body_views(self.asset_bodies@),
        }
    }

    /// Every row has an identity, every id names a row, and every file has
    /// a body and the digest of that body.
    pub open spec fn wf(self) -> bool {
        &&& shelf_ok(self.shelf())
        &&& files_ok(self.files())
    }

    /// All but the conversations stays as it was.
    pub open spec fn same_rest(self, other: Accumulator) -> bool {
        &&& self.exports == other.exports
        &&& self.media_posts == other.media_posts
        &&& self.projects == other.projects
        &&& self.tasks == other.tasks
        &&& self.auth == other.auth
        &&& self.billing == other.billing
        &&& self.assets == other.assets
        &&& self.asset_digests == other.asset_digests
        &&& self.asset_bodies == other.asset_bodies
        &&& self.max_uncompressed_bytes == other.max_uncompressed_bytes
    }

    /// All but the files stays as it was.
    pub open spec fn same_but_files(self, other: Accumulator) -> bool {
        &&& self.exports == other.exports
        &&& self.conversations == other.conversations
        &&& self.by_id == other.by_id
        &&& self.media_posts == other.media_posts
        &&& self.projects == other.projects
        &&& self.tasks == other.tasks
        &&& self.auth == other.auth
        &&& self.billing == other.billing
        &&& self.idents == other.idents
        &&& self.max_uncompressed_bytes == other.max_uncompressed_bytes
    }

    /// Nothing gathered yet.
    pub fn new() -> (r: Accumulator)
        ensures
            r.wf(),
            r.shelf() == (Shelf {
                records: Seq::empty(),
                idents: Seq::empty(),
                by_id: Map::empty(),
            }),
            r.files() == (Files {
                assets: Seq::empty(),
                digests: Seq::empty(),
                bodies: Seq::empty(),
            }),
            files_whole(r.files()),
            r.exports@.len() == 0,
            r.media_posts@.len() == 0,
            r.projects@.len() == 0,
            r.tasks@.len() == 0,
            r.auth@.len() == 0,
            r.billing@.len() == 0,
            r.max_uncompressed_bytes == 0,
    {
        let r = Accumulator {
            exports: Vec::new(),
            conversations: Vec::new(),
            by_id: StringHashMap::new(),
            media_posts: Vec::new(),
            projects: Vec::new(),
            tasks: Vec::new(),
            auth: Vec::new(),
            billing: Vec::new(),
            assets: Vec::new(),
            asset_digests: Vec::new(),
            asset_bodies: Vec::new(),
            idents: Vec::new(),
            max_uncompressed_bytes: 0,
        };
        proof {
            assert(r.files().digests =~= roots_of(r.files().bodies));
        }
        r
    }

    /// Size above which zip entries are skipped.
    pub fn zip_max(&self) -> (r: u64)
        ensures
            r == if self.max_uncompressed_bytes == 0 {
                MAX_UNCOMPRESSED
            } else {
                self.max_uncompressed_bytes
            },
    {
        if self.max_uncompressed_bytes == 0 {
            MAX_UNCOMPRESSED
        } else {
            self.max_uncompressed_bytes
        }
    }

    /// The number that the next export gets.
    pub fn next_export_index(&self) -> (r: Result<u32, Error>)
        ensures
            match r {
                Ok(x) => x == self.exports@.len(),
                Err(Error::Ingest(m)) => self.exports@.len() > u32::MAX && m@ == unfit_text(
                    self.exports@.len(),
                    "export count"@,
                ),
                Err(_) => false,
            },
    {
        u32_fit_usize(self.exports.len(), "export count")
    }

    /// Adds a conversation whose identity is known. A failed encoding
    /// changes nothing.
    pub fn add_conversation_with_ident<
        F: Fn(&ConversationItem) -> Result<Vec<u8>, Error>,
        G: Fn(&ResponseItem) -> Result<Vec<u8>, Error>,
    >(
        &mut self,
        export_index: u32,
        item: ConversationItem,
        incoming: ItemIdentity,
        f: &F,
        g: &G,
    ) -> (r: Result<(), Error>)
        requires
            old(self).wf(),
            faithful::<ConversationItem, F>(*f),
            faithful::<ResponseItem, G>(*g),
        ensures
            final(self).wf(),
            final(self).same_rest(*old(self)),
            match r {
                Ok(_) => final(self).shelf() == shelved(
                    old(self).shelf(),
                    export_index,
                    item@,
                    incoming@,
                    encoder::<ConversationItem, F>(*f),
                    encoder::<ResponseItem, G>(*g),
                ),
                Err(e) => final(self).shelf() == old(self).shelf() && shelving_failed(
                    *f,
                    *g,
                    old(self).shelf(),
                    item@,
                    incoming@,
                    e,
                ),
            },
    {
        let ghost s = self.shelf();
        let ghost ei = encoder::<ConversationItem, F>(*f);
        let ghost er = encoder::<ResponseItem, G>(*g);
        let ghost want = shelved(s, export_index, item@, incoming@, ei, er);
        let size: usize = self.conversations.len();
        let found: Option<usize> = match &incoming.id {
            Some(id) => match self.by_id.get(id) {
                Some(p) => Some(*p),
                None => {
                    self.by_id.insert(id.clone(), size);
                    None
                },
            },
            None => None,
        };
        match found {
            None => {
                self.conversations.push(new_record(export_index, &incoming, item));
                self.idents.push(incoming);
                proof {
                    assert(self.shelf().records =~= want.records);
                    assert(self.shelf().idents =~= want.idents);
                    assert(self.shelf().by_id =~= want.by_id);
                }
                Ok(())
            },
            Some(p) => {
                proof {
                    assert(s.by_id.contains_key(incoming@.id->0));
                }
                if identities_match(&self.idents[p], &incoming) {
                    add_index(&mut self.conversations[p].export_indices, export_index);
                    proof {
                        assert(self.shelf().records =~= want.records);
                    }
                    return Ok(());
                }
                let existing = self.conversations[p].item.copied();
                let merged = match enrich_item(
                    existing,
                    item,
                    &self.idents[p].modified,
                    &incoming.modified,
                    g,
                ) {
                    Ok(m) => m,
                    Err(e) => {
                        return Err(e);
                    },
                };
                let ident = match identity_of(&merged, f, g) {
                    Ok(i) => i,
                    Err(e) => {
                        return Err(e);
                    },
                };
                self.conversations[p].item = merged;
                self.conversations[p].byte_len = ident.byte_len;
                self.conversations[p].modified = copied_stamp(&ident.modified);
                self.conversations[p].id = copied_opt(&ident.id);
                add_index(&mut self.conversations[p].export_indices, export_index);
                self.idents.set(p, ident);
                proof {
                    assert(self.shelf().records =~= want.records);
                    assert(self.shelf().idents =~= want.idents);
                }
                Ok(())
            },
        }
    }

    /// Adds a conversation. A failed encoding changes nothing.
    pub fn add_conversation<
        F: Fn(&ConversationItem) -> Result<Vec<u8>, Error>,
        G: Fn(&ResponseItem) -> Result<Vec<u8>, Error>,
    >(&mut self, export_index: u32, item: ConversationItem, f: &F, g: &G) -> (r: Result<(), Error>)
        requires
            old(self).wf(),
            faithful::<ConversationItem, F>(*f),
            faithful::<ResponseItem, G>(*g),
        ensures
            final(self).wf(),
            final(self).same_rest(*old(self)),
            match r {
                Ok(_) => final(self).shelf() == shelved(
                    old(self).shelf(),
                    export_index,
                    item@,
                    identity(
                        item@,
                        encoder::<ConversationItem, F>(*f),
                        encoder::<ResponseItem, G>(*g),
                    ),
                    encoder::<ConversationItem, F>(*f),
                    encoder::<ResponseItem, G>(*g),
                ),
                Err(e) => final(self).shelf() == old(self).shelf() && adding_failed(
                    *f,
                    *g,
                    old(self).shelf(),
                    item@,
                    e,
                ),
            },
    {
        match identity_of(&item, f, g) {
            Ok(incoming) => self.add_conversation_with_ident(export_index, item, incoming, f, g),
            Err(e) => Err(e),
        }
    }

    /// Adds conversations, in order. When an encoding fails, those before it
    /// have been added.
    pub fn add_conversations<
        F: Fn(&ConversationItem) -> Result<Vec<u8>, Error>,
        G: Fn(&ResponseItem) -> Result<Vec<u8>, Error>,
    >(&mut self, export_index: u32, items: Vec<ConversationItem>, f: &F, g: &G) -> (r: Result<
        (),
        Error,
    >)
        requires
            old(self).wf(),
            faithful::<ConversationItem, F>(*f),
            faithful::<ResponseItem, G>(*g),
        ensures
            final(self).wf(),
            final(self).same_rest(*old(self)),
            match r {
                Ok(_) => final(self).shelf() == shelved_all(
                    old(self).shelf(),
                    export_index,
                    item_views(items@),
                    encoder::<ConversationItem, F>(*f),
                    encoder::<ResponseItem, G>(*g),
                ),
                Err(e) => exists|n: int|
                    0 <= n < items@.len() && final(self).shelf() == #[trigger] shelved_all(
                        old(self).shelf(),
                        export_index,
                        item_views(items@).take(n),
                        encoder::<ConversationItem, F>(*f),
                        encoder::<ResponseItem, G>(*g),
                    ) && adding_failed(*f, *g, final(self).shelf(), items@[n]@, e),
            },
    {
        let ghost s = self.shelf();
        let ghost start = *self;
        let ghost ei = encoder::<ConversationItem, F>(*f);
        let ghost er = encoder::<ResponseItem, G>(*g);
        let ghost given = items@;
        let ghost all = item_views(items@);
        let total: usize = items.len();
        let mut rest = reversed(items);
        let mut done: usize = 0;
        proof {
            assert(all.take(0) =~= Seq::<ItemView>::empty());
            assert(given.skip(0) =~= given);
        }
        while done < total
            invariant
                faithful::<ConversationItem, F>(*f),
                faithful::<ResponseItem, G>(*g),
                ei == encoder::<ConversationItem, F>(*f),
                er == encoder::<ResponseItem, G>(*g),
                all == item_views(given),
                given == items@,
                start == *old(self),
                s == old(self).shelf(),
                total == given.len(),
                done <= total,
                rest@ == given.skip(done as int).reverse(),
                self.wf(),
                self.same_rest(start),
                self.shelf() == shelved_all(s, export_index, all.take(done as int), ei, er),
            decreases total - done,
        {
            let x = match rest.pop() {
                Some(x) => x,
                None => {
                    return Ok(());
                },
            };
            proof {
                assert(x == given[done as int]);
                assert(rest@ =~= given.skip(done + 1).reverse());
                assert(all.take(done + 1).drop_last() =~= all.take(done as int));
                assert(all.take(done + 1).last() == x@);
            }
            match self.add_conversation(export_index, x, f, g) {
                Ok(_) => {},
                Err(e) => {
                    return Err(e);
                },
            }
            done = done + 1;
        }
        proof {
            assert(all.take(all.len() as int) =~= all);
        }
        Ok(())
    }

    /// Adds one file.
    pub fn add_asset(&mut self, export_index: u32, x: HashedAsset)
        requires
            old(self).wf(),
            asset_ok(x@),
        ensures
            final(self).wf(),
            files_whole(old(self).files()) ==> files_whole(final(self).files()),
            final(self).same_but_files(*old(self)),
            final(self).files() == filed(old(self).files(), export_index, x@),
    {
        let ghost s = self.files();
        let ghost want = filed(s, export_index, x@);
        let mut found: Option<usize> = find_digest(&self.asset_digests, &x.digest);
        if found.is_none() && x.bytes.len() == 0 {
            found = find_bare(&self.assets, &x.uuid);
        }
        match found {
            Some(p) => {
                add_index(&mut self.assets[p].export_indices, export_index);
                proof {
                    assert(self.files().assets =~= want.assets);
                }
            },
            None => {
                self.assets.push(
                    AssetEntry {
                        export_index,
                        export_indices: vec![export_index],
                        uuid: x.uuid,
                        relative_path: x.relative_path,
                        size: x.size,
                        mtime: x.mtime,
                        blob_off: 0,
                        blob_len: 0,
                    },
                );
                self.asset_digests.push(x.digest);
                self.asset_bodies.push(x.bytes);
                proof {
                    assert(self.assets@.last()@.export_indices =~= seq![export_index]);
                    assert(self.files().assets =~= want.assets);
                    assert(self.files().digests =~= want.digests);
                    assert(self.files().bodies =~= want.bodies);
                    assert(want.digests =~= roots_of(want.bodies));
                }
            },
        }
    }

    /// Adds files, in order.
    pub fn merge_hashed_assets(&mut self, export_index: u32, hashed: Vec<HashedAsset>)
        requires
            old(self).wf(),
            forall|i: int| 0 <= i < hashed@.len() ==> asset_ok((#[trigger] hashed@[i])@),
        ensures
            final(self).wf(),
            files_whole(old(self).files()) ==> files_whole(final(self).files()),
            final(self).same_but_files(*old(self)),
            final(self).files() == filed_all(old(self).files(), export_index, hashed_views(hashed@)),
    {
        let ghost s = self.files();
        let ghost start = *self;
        let ghost given = hashed@;
        let ghost all = hashed_views(hashed@);
        let total: usize = hashed.len();
        let mut rest = reversed(hashed);
        let mut done: usize = 0;
        proof {
            assert(all.take(0) =~= Seq::<HashedView>::empty());
            assert(given.skip(0) =~= given);
        }
        while done < total
            invariant
                all == hashed_views(given),
                forall|i: int| 0 <= i < given.len() ==> asset_ok((#[trigger] given[i])@),
                total == given.len(),
                done <= total,
                rest@ == given.skip(done as int).reverse(),
                self.wf(),
                files_whole(s) ==> files_whole(self.files()),
                self.same_but_files(start),
                self.files() == filed_all(s, export_index, all.take(done as int)),
            decreases total - done,
        {
            if let Some(x) = rest.pop() {
                proof {
                    assert(x == given[done as int]);
                    assert(rest@ =~= given.skip(done + 1).reverse());
                    assert(all.take(done + 1).drop_last() =~= all.take(done as int));
                    assert(all.take(done + 1).last() == x@);
                }
                self.add_asset(export_index, x);
            }
            done = done + 1;
        }
        proof {
            assert(all.take(all.len() as int) =~= all);
        }
    }
}

/// The first file with the digest.
fn find_digest(digests: &Vec<Digest>, d: &Digest) -> (r: Option<usize>)
    ensures
        match r {
            Some(p) => p < digests@.len() && digest_position(digest_views(digests@), d.root@) == p,
            None => digest_position(digest_views(digests@), d.root@) == -1,
        },
{
    let ghost all = digest_views(digests@);
    let mut i: usize = 0;
    proof {
        assert(all.take(0) =~= Seq::<Seq<u8>>::empty());
    }
    while i < digests.len()
        invariant
            i <= digests@.len(),
            all == digest_views(digests@),
            digest_position(all.take(i as int), d.root@) == -1,
        decreases digests.len() - i,
    {
        proof {
            assert(all.take(i + 1).drop_last() =~= all.take(i as int));
        }
        if same_digest(&digests[i], d) {
            proof {
                lemma_digest_position_stays(all, i + 1, d.root@);
            }
            return Some(i);
        }
        i = i + 1;
    }
    proof {
        assert(all.take(all.len() as int) =~= all);
    }
    None
}

proof fn lemma_digest_position_stays(v: Seq<Seq<u8>>, n: int, d: Seq<u8>)
    requires
        0 <= n <= v.len(),
        digest_position(v.take(n), d) >= 0,
    ensures
        digest_position(v, d) == digest_position(v.take(n), d),
    decreases v.len(),
{
    if n == v.len() {
        assert(v.take(n) =~= v);
    } else {
        assert(v.drop_last().take(n) =~= v.take(n));
        lemma_digest_position_stays(v.drop_last(), n, d);
    }
}

/// The first row without a stored body and with the uuid.
fn find_bare(assets: &Vec<AssetEntry>, uuid: &str) -> (r: Option<usize>)
    ensures
        match r {
            Some(p) => p < assets@.len() && bare_position(asset_views(assets@), uuid@) == p,
            None => bare_position(asset_views(assets@), uuid@) == -1,
        },
{
    let ghost all = asset_views(assets@);
    let mut i: usize = 0;
    proof {
        assert(all.take(0) =~= Seq::<AssetView>::empty());
    }
    while i < assets.len()
        invariant
            i <= assets@.len(),
            all == asset_views(assets@),
            bare_position(all.take(i as int), uuid@) == -1,
        decreases assets.len() - i,
    {
        proof {
            assert(all.take(i + 1).drop_last() =~= all.take(i as int));
        }
        if assets[i].blob_len == 0 && same_str(&assets[i].uuid, uuid) {
            proof {
                lemma_bare_position_stays(all, i + 1, uuid@);
            }
            return Some(i);
        }
        i = i + 1;
    }
    proof {
        assert(all.take(all.len() as int) =~= all);
    }
    None
}

proof fn lemma_bare_position_stays(v: Seq<AssetView>, n: int, uuid: Seq<char>)
    requires
        0 <= n <= v.len(),
        bare_position(v.take(n), uuid) >= 0,
    ensures
        bare_position(v, uuid) == bare_position(v.take(n), uuid),
    decreases v.len(),
{
    if n == v.len() {
        assert(v.take(n) =~= v);
    } else {
        assert(v.drop_last().take(n) =~= v.take(n));
        lemma_bare_position_stays(v.drop_last(), n, uuid);
    }
}

/// No row lists an export twice.
pub open spec fn provenance_once(s: Shelf) -> bool {
    forall|i: int|
        0 <= i < s.records.len() ==> (#[trigger] s.records[i]).export_indices.no_duplicates()
}

/// Adding a conversation keeps every row in its place with the exports that
/// it came from, keeps every id, and lists no export twice.
pub proof fn law_rows_stay(
    s: Shelf,
    export_index: u32,
    item: ItemView,
    incoming: IdentityView,
    ei: spec_fn(ItemView) -> Seq<u8>,
    er: spec_fn(ResponseItemView) -> Seq<u8>,
)
    requires
        shelf_ok(s),
        s.records.len() < usize::MAX,
    ensures
        ({
            let t = shelved(s, export_index, item, incoming, ei, er);
            &&& shelf_ok(t)
            &&& s.records.len() <= t.records.len() <= s.records.len() + 1
            &&& forall|i: int|
                0 <= i < s.records.len() ==> (#[trigger] t.records[i]).export_index
                    == s.records[i].export_index && s.records[i].export_indices.is_prefix_of(
                    t.records[i].export_indices,
                )
            &&& forall|id: Seq<char>| #[trigger]
                s.by_id.contains_key(id) ==> t.by_id.contains_key(id) && t.by_id[id] == s.by_id[id]
            &&& provenance_once(s) ==> provenance_once(t)
        }),
{
    let t = shelved(s, export_index, item, incoming, ei, er);
    assert forall|i: int| 0 <= i < s.records.len() implies (#[trigger] t.records[i]).export_index
        == s.records[i].export_index && s.records[i].export_indices.is_prefix_of(
        t.records[i].export_indices,
    ) by {
        let a = s.records[i].export_indices;
        assert(a.is_prefix_of(a));
        assert(a.is_prefix_of(a.push(export_index)));
    }
    if provenance_once(s) {
        assert forall|i: int| 0 <= i < t.records.len() implies (
        #[trigger] t.records[i]).export_indices.no_duplicates() by {
            if i < s.records.len() {
                assert(s.records[i].export_indices.no_duplicates());
            }
        }
    }
}

/// A conversation that is added twice, first as a new id, has one row with
/// its contents as they were and both exports.
pub proof fn law_the_same_conversation_is_one_row(
    s: Shelf,
    first: u32,
    second: u32,
    item: ItemView,
    ei: spec_fn(ItemView) -> Seq<u8>,
    er: spec_fn(ResponseItemView) -> Seq<u8>,
)
    requires
        shelf_ok(s),
        s.records.len() < usize::MAX,
        item.conversation.id is Some,
        !s.by_id.contains_key(item.conversation.id->0),
    ensures
        ({
            let i = identity(item, ei, er);
            let one = shelved(s, first, item, i, ei, er);
            let two = shelved(one, second, item, i, ei, er);
            &&& two.records.len() == s.records.len() + 1
            &&& two.records.last().item == item
            &&& two.records.last().export_indices == joined_index(seq![first], second)
            &&& two.records.drop_last() == s.records
            &&& two.idents == one.idents
        }),
{
    let i = identity(item, ei, er);
    let one = shelved(s, first, item, i, ei, er);
    let two = shelved(one, second, item, i, ei, er);
    assert(two.records.drop_last() =~= s.records);
}

/// A file whose digest is known is stored once: only its exports change.
pub proof fn law_the_same_file_is_stored_once(s: Files, first: u32, second: u32, x: HashedView)
    requires
        s.assets.len() == s.digests.len(),
        x.bytes.len() > 0,
    ensures
        ({
            let one = filed(s, first, x);
            let two = filed(one, second, x);
            &&& two.bodies == one.bodies
            &&& two.digests == one.digests
            &&& two.assets.len() == one.assets.len()
        }),
{
    let one = filed(s, first, x);
    assert(s.digests.push(x.digest).drop_last() =~= s.digests);
    lemma_digest_position(s.digests, x.digest);
    lemma_digest_position(one.digests, x.digest);
}

proof fn lemma_digest_position(v: Seq<Seq<u8>>, d: Seq<u8>)
    ensures
        -1 <= digest_position(v, d) < v.len(),
    decreases v.len(),
{
    if v.len() > 0 {
        lemma_digest_position(v.drop_last(), d);
    }
}

/// The time of a conversation is when it was changed, else when it was made.
pub proof fn law_time_of(x: ItemView, t: Stamp)
    ensures
        x.conversation.modify_time == Some(t) ==> time_of(x) == Some(t),
        x.conversation.modify_time is None ==> time_of(x) == x.conversation.create_time,
{
}

/// A new conversation is added whole, behind the others, with its id and its
/// export. The others stay as they are.
pub proof fn law_new_conversation_is_added(
    s: Shelf,
    export_index: u32,
    item: ItemView,
    ei: spec_fn(ItemView) -> Seq<u8>,
    er: spec_fn(ResponseItemView) -> Seq<u8>,
)
    requires
        shelf_ok(s),
        s.records.len() < usize::MAX,
        item.conversation.id is Some ==> !s.by_id.contains_key(item.conversation.id->0),
    ensures
        ({
            let t = shelved(s, export_index, item, identity(item, ei, er), ei, er);
            &&& t.records.len() == s.records.len() + 1
            &&& t.records.drop_last() == s.records
            &&& t.records.last().item == item
            &&& t.records.last().id == item.conversation.id
            &&& t.records.last().export_index == export_index
            &&& t.records.last().export_indices == seq![export_index]
            &&& item.conversation.id is Some ==> t.by_id.contains_key(item.conversation.id->0)
                && t.by_id[item.conversation.id->0] == s.records.len()
            &&& item.conversation.id is None ==> t.by_id == s.by_id
        }),
{
    let t = shelved(s, export_index, item, identity(item, ei, er), ei, er);
    assert(t.records.drop_last() =~= s.records);
}

/// A changed copy of a known conversation is merged into its row: every
/// response of either copy is there by its id, the export is noted, and no
/// other row is touched.
pub proof fn law_changed_conversation_is_merged(
    s: Shelf,
    export_index: u32,
    item: ItemView,
    ei: spec_fn(ItemView) -> Seq<u8>,
    er: spec_fn(ResponseItemView) -> Seq<u8>,
    id: Seq<char>,
    r: Seq<char>,
)
    requires
        shelf_ok(s),
        item.conversation.id == Some(id),
        s.by_id.contains_key(id),
        s.idents[s.by_id[id] as int].root != root_of(ei(item)),
    ensures
        ({
            let p = s.by_id[id] as int;
            let t = shelved(s, export_index, item, identity(item, ei, er), ei, er);
            let (a, b) = (s.records[p].item, item);
            &&& t.records.len() == s.records.len()
            &&& t.records[p].export_indices.contains(export_index)
            &&& forall|k: int| 0 <= k < s.records.len() && k != p ==> #[trigger] t.records[k]
                == s.records[k]
            &&& id_position(a.responses, r) >= 0 || id_position(b.responses, r) >= 0 ==> id_position(
                t.records[p].item.responses,
                r,
            ) >= 0
            &&& id_position(t.records[p].item.responses, r) >= 0 ==> id_position(a.responses, r) >= 0
                || id_position(b.responses, r) >= 0
            &&& t.records[p].id == t.records[p].item.conversation.id
            &&& t.records[p].modified == time_of(t.records[p].item)
        }),
{
    let p = s.by_id[id] as int;
    let (a, b) = (s.records[p].item, item);
    law_merge_keeps_every_id(a.responses, b.responses, er, r);
    let was = s.records[p].export_indices;
    if !was.contains(export_index) {
        assert(was.push(export_index)[was.len() as int] == export_index);
    }
}

/// The same copy of a known conversation changes nothing but the exports that
/// its row is known from.
pub proof fn law_same_copy_changes_nothing(
    s: Shelf,
    export_index: u32,
    item: ItemView,
    ei: spec_fn(ItemView) -> Seq<u8>,
    er: spec_fn(ResponseItemView) -> Seq<u8>,
    id: Seq<char>,
)
    requires
        shelf_ok(s),
        item.conversation.id == Some(id),
        s.by_id.contains_key(id),
        s.idents[s.by_id[id] as int] == identity(item, ei, er),
    ensures
        ({
            let p = s.by_id[id] as int;
            let t = shelved(s, export_index, item, identity(item, ei, er), ei, er);
            &&& t.records.len() == s.records.len()
            &&& t.records[p].item == s.records[p].item
            &&& t.records[p].export_indices.contains(export_index)
            &&& t.idents == s.idents
            &&& t.by_id == s.by_id
            &&& forall|k: int| 0 <= k < s.records.len() && k != p ==> #[trigger] t.records[k]
                == s.records[k]
        }),
{
    let p = s.by_id[id] as int;
    let was = s.records[p].export_indices;
    if !was.contains(export_index) {
        assert(was.push(export_index)[was.len() as int] == export_index);
    }
}

/// A new file is stored with its bytes, its names, its size and its time. The
/// files before it stay as they are.
pub proof fn law_new_file_is_stored(s: Files, export_index: u32, x: HashedView)
    requires
        s.assets.len() == s.bodies.len() == s.digests.len(),
        !s.digests.contains(x.digest),
        x.bytes.len() > 0,
    ensures
        ({
            let t = filed(s, export_index, x);
            let a = t.assets.last();
            &&& t.assets.len() == s.assets.len() + 1
            &&& t.assets.drop_last() == s.assets
            &&& t.bodies == s.bodies.push(x.bytes)
            &&& t.digests == s.digests.push(x.digest)
            &&& a.uuid == x.uuid && a.relative_path == x.relative_path
            &&& a.size == x.size && a.mtime == x.mtime
            &&& a.export_index == export_index
            &&& a.export_indices == seq![export_index]
        }),
{
    lemma_no_digest(s.digests, x.digest);
    assert(filed(s, export_index, x).assets.drop_last() =~= s.assets);
}

/// A file that is stored already is not stored again. Its row notes the
/// export.
pub proof fn law_known_file_is_noted(s: Files, export_index: u32, x: HashedView)
    requires
        s.assets.len() == s.bodies.len() == s.digests.len(),
        s.digests.contains(x.digest),
    ensures
        ({
            let t = filed(s, export_index, x);
            &&& t.bodies == s.bodies
            &&& t.digests == s.digests
            &&& t.assets.len() == s.assets.len()
            &&& exists|k: int|
                0 <= k < s.assets.len() && s.digests[k] == x.digest && (
                #[trigger] t.assets[k]).export_indices.contains(export_index) && t.assets[k].uuid
                    == s.assets[k].uuid
        }),
{
    lemma_some_digest(s.digests, x.digest);
    let p = digest_position(s.digests, x.digest);
    let was = s.assets[p].export_indices;
    if !was.contains(export_index) {
        assert(was.push(export_index)[was.len() as int] == export_index);
    }
    assert(filed(s, export_index, x).assets[p].export_indices.contains(export_index));
}

proof fn lemma_no_digest(digests: Seq<Seq<u8>>, d: Seq<u8>)
    requires
        !digests.contains(d),
    ensures
        digest_position(digests, d) == -1,
    decreases digests.len(),
{
    if digests.len() > 0 {
        let init = digests.drop_last();
        assert(digests.contains(digests[digests.len() - 1]));
        assert(!init.contains(d)) by {
            if init.contains(d) {
                let i = choose|i: int| 0 <= i < init.len() && init[i] == d;
                assert(digests[i] == d);
            }
        }
        lemma_no_digest(init, d);
    }
}

proof fn lemma_some_digest(digests: Seq<Seq<u8>>, d: Seq<u8>)
    requires
        digests.contains(d),
    ensures
        0 <= digest_position(digests, d) < digests.len(),
        digests[digest_position(digests, d)] == d,
    decreases digests.len(),
{
    let init = digests.drop_last();
    if init.contains(d) {
        lemma_some_digest(init, d);
    } else {
        lemma_no_digest(init, d);
        let i = choose|i: int| 0 <= i < digests.len() && digests[i] == d;
        if i < init.len() {
            assert(init[i] == d);
        }
    }
}

} // verus!
