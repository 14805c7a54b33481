//! The records that an archive holds, and their counts.
use vstd::prelude::*;

use crate::archive::{layout_at, spans_of, Archive, SPAN_LEN, VERSION};
use crate::paths::opt_view;
use crate::records::{
    opt_stamp, AuthFile, BillingFile, ConversationItem, ItemView, Stamp, Timestamp,
};
use crate::schema::{ExtraMap, JsonAtom};
use crate::text::{cat3, decimal, decimal_u64, decimal_usize, views};
use crate::Error;

verus! {

/// One export that contributed records.
#[derive(Debug, PartialEq)]
pub struct ExportManifest {
    /// Path as it was given.
    pub source_path: String,
    /// Folder name of the export when it looks like a uuid.
    pub id: Option<String>,
    /// Unknown keys at the top of the export.
    pub extra: ExtraMap,
}

/// A conversation with the exports that it came from.
#[derive(Debug, PartialEq)]
pub struct ConversationRecord {
    /// First export that contributed this row.
    pub export_index: u32,
    /// Every export that contributed.
    pub export_indices: Vec<u32>,
    /// Length of the canonical encoding.
    pub byte_len: u64,
    /// `modify_time`, else `create_time`.
    pub modified: Option<Timestamp>,
    /// Conversation id when present. Never invented.
    pub id: Option<String>,
    /// Offset of the canonical bytes in the hashed blob.
    pub blob_off: u64,
    /// Length of the canonical bytes in that blob.
    pub blob_len: u64,
    pub item: ConversationItem,
}

/// What a conversation record holds.
#[verifier::ext_equal]
pub struct RecordView {
    pub export_index: u32,
    pub export_indices: Seq<u32>,
    pub byte_len: u64,
    pub modified: Option<Stamp>,
    pub id: Option<Seq<char>>,
    pub blob_off: u64,
    pub blob_len: u64,
    pub item: ItemView,
}

impl View for ConversationRecord {
    type V = RecordView;

    open spec fn view(&self) -> RecordView {
        RecordView {
            export_index: self.export_index,
            export_indices: self.export_indices@,
            byte_len: self.byte_len,
            modified: opt_stamp(self.modified),
            id: opt_view(self.id),
            blob_off: self.blob_off,
            blob_len: self.blob_len,
            item: self.item@,
        }
    }
}

/// What records hold, in order.
pub open spec fn record_views(v: Seq<ConversationRecord>) -> Seq<RecordView> {
    Seq::new(v.len(), |i: int| v[i]@)
}

/// The conversations of records, in order.
pub open spec fn record_items(v: Seq<RecordView>) -> Seq<ItemView> {
    Seq::new(v.len(), |i: int| v[i].item)
}

/// A post, project or task with the export that it came from.
#[derive(Debug, PartialEq)]
pub struct TaggedJson {
    pub export_index: u32,
    pub value: JsonAtom,
}

/// An auth file with the export that it came from. Its values are secret.
#[derive(Debug, PartialEq)]
pub struct TaggedAuth {
    pub export_index: u32,
    pub file: AuthFile,
}

/// A billing file with the export that it came from.
#[derive(Debug, PartialEq)]
pub struct TaggedBilling {
    pub export_index: u32,
    pub file: BillingFile,
}

/// One uploaded file. Its body is in the hashed blob. Sameness is the tree
/// root of the body. Uuid, size and mtime only describe it.
#[derive(Debug, PartialEq)]
pub struct AssetEntry {
    /// First export that contributed this body.
    pub export_index: u32,
    /// Every export that contributed this body.
    pub export_indices: Vec<u32>,
    pub uuid: String,
    pub relative_path: String,
    pub size: u64,
    /// Modification time of the file as unix seconds, or 0 if missing.
    pub mtime: u64,
    /// Offset of the body in the hashed blob.
    pub blob_off: u64,
    /// Length of the body.
    pub blob_len: u64,
}

/// What an uploaded file's row holds.
#[verifier::ext_equal]
pub struct AssetView {
    pub export_index: u32,
    pub export_indices: Seq<u32>,
    pub uuid: Seq<char>,
    pub relative_path: Seq<char>,
    pub size: u64,
    pub mtime: u64,
    pub blob_off: u64,
    pub blob_len: u64,
}

impl View for AssetEntry {
    type V = AssetView;

    open spec fn view(&self) -> AssetView {
        AssetView {
            export_index: self.export_index,
            export_indices: self.export_indices@,
            uuid: self.uuid@,
            relative_path: self.relative_path@,
            size: self.size,
            mtime: self.mtime,
            blob_off: self.blob_off,
            blob_len: self.blob_len,
        }
    }
}

/// What rows of uploaded files hold, in order.
pub open spec fn asset_views(v: Seq<AssetEntry>) -> Seq<AssetView> {
    Seq::new(v.len(), |i: int| v[i]@)
}

/// The payload of an archive. The searchable text is derived from it.
#[derive(Debug, PartialEq)]
pub struct ArchiveRoot {
    pub exports: Vec<ExportManifest>,
    pub conversations: Vec<ConversationRecord>,
    pub media_posts: Vec<TaggedJson>,
    pub projects: Vec<TaggedJson>,
    pub tasks: Vec<TaggedJson>,
    pub auth: Vec<TaggedAuth>,
    pub billing: Vec<TaggedBilling>,
    pub assets: Vec<AssetEntry>,
}

impl Default for ArchiveRoot {
    fn default() -> (r: ArchiveRoot)
        ensures
            r.exports@.len() == 0,
            r.conversations@.len() == 0,
            r.media_posts@.len() == 0,
            r.projects@.len() == 0,
            r.tasks@.len() == 0,
            r.auth@.len() == 0,
            r.billing@.len() == 0,
            r.assets@.len() == 0,
    {
        ArchiveRoot {
            exports: Vec::new(),
            conversations: Vec::new(),
            media_posts: Vec::new(),
            projects: Vec::new(),
            tasks: Vec::new(),
            auth: Vec::new(),
            billing: Vec::new(),
            assets: Vec::new(),
        }
    }
}

/// Counts from an opened archive. No secret values.
#[derive(Debug, Clone, PartialEq, Eq)]
pub struct ArchiveStats {
    pub path: String,
    pub version: u32,
    pub exports: usize,
    pub conversations: usize,
    pub media_posts: usize,
    pub projects: usize,
    pub tasks: usize,
    pub auth_files: usize,
    pub billing_files: usize,
    pub assets: usize,
    pub payload_bytes: u64,
    pub text_bytes: u64,
    pub spans: usize,
    pub export_labels: Vec<String>,
}

/// Name of an export in a list: its path, and its id when it has one.
pub open spec fn export_label(x: ExportManifest) -> Seq<char> {
    match x.id {
        Some(id) => x.source_path@ + " (id="@ + id@ + ")"@,
        None => x.source_path@,
    }
}

/// Name of an export in a list.
pub fn export_label_of(x: &ExportManifest) -> (r: String)
    ensures
        r@ == export_label(*x),
{
    let mut label = x.source_path.clone();
    if let Some(id) = &x.id {
        label.push_str(" (id=");
        label.push_str(id);
        label.push_str(")");
    }
    label
}

/// The line for one count.
pub open spec fn count_line(name: Seq<char>, n: nat) -> Seq<char> {
    name + ": "@ + decimal(n) + "\n"@
}

fn push_count(out: &mut String, name: &str, n: u64)
    ensures
        final(out)@ == old(out)@ + count_line(name@, n as nat),
{
    let ghost start = out@;
    out.push_str(name);
    out.push_str(": ");
    out.push_str(&decimal_u64(n));
    out.push_str("\n");
    proof {
        assert(out@ =~= start + count_line(name@, n as nat));
    }
}

/// The lines that name the exports.
pub open spec fn label_lines(labels: Seq<Seq<char>>) -> Seq<char>
    decreases labels.len(),
{
    if labels.len() == 0 {
        Seq::empty()
    } else {
        label_lines(labels.drop_last()) + "export "@ + decimal((labels.len() - 1) as nat) + ": "@
            + labels.last() + "\n"@
    }
}

impl ArchiveStats {
    /// The counts as lines of text.
    pub open spec fn lines(self) -> Seq<char> {
        "majestic archive version "@ + decimal(self.version as nat) + "\n"@ + "path: "@ + self.path@
            + "\n"@ + count_line("export dumps"@, self.exports as nat) + count_line(
            "unique conversations"@,
            self.conversations as nat,
        ) + count_line("media_posts"@, self.media_posts as nat) + count_line(
            "projects"@,
            self.projects as nat,
        ) + count_line("tasks"@, self.tasks as nat) + count_line(
            "auth_files"@,
            self.auth_files as nat,
        ) + count_line("billing_files"@, self.billing_files as nat) + count_line(
            "assets"@,
            self.assets as nat,
        ) + count_line("payload_bytes"@, self.payload_bytes as nat) + count_line(
            "text_bytes"@,
            self.text_bytes as nat,
        ) + count_line("spans"@, self.spans as nat) + label_lines(views(self.export_labels@))
    }

    /// The counts as lines of text.
    pub fn to_text(&self) -> (r: String)
        ensures
            r@ == self.lines(),
    {
        let mut out = cat3("majestic archive version ", &decimal_u64(self.version as u64), "\n");
        out.push_str("path: ");
        out.push_str(&self.path);
        out.push_str("\n");
        push_count(&mut out, "export dumps", self.exports as u64);
        push_count(&mut out, "unique conversations", self.conversations as u64);
        push_count(&mut out, "media_posts", self.media_posts as u64);
        push_count(&mut out, "projects", self.projects as u64);
        push_count(&mut out, "tasks", self.tasks as u64);
        push_count(&mut out, "auth_files", self.auth_files as u64);
        push_count(&mut out, "billing_files", self.billing_files as u64);
        push_count(&mut out, "assets", self.assets as u64);
        push_count(&mut out, "payload_bytes", self.payload_bytes);
        push_count(&mut out, "text_bytes", self.text_bytes);
        push_count(&mut out, "spans", self.spans as u64);
        let ghost head = out@;
        let ghost labels = views(self.export_labels@);
        let mut i: usize = 0;
        proof {
            assert(labels.take(0) =~= Seq::<Seq<char>>::empty());
            assert(head + label_lines(labels.take(0)) =~= head);
        }
        while i < self.export_labels.len()
            invariant
                i <= self.export_labels@.len(),
                labels == views(self.export_labels@),
                out@ == head + label_lines(labels.take(i as int)),
            decreases self.export_labels.len() - i,
        {
            out.push_str("export ");
            out.push_str(&decimal_usize(i));
            out.push_str(": ");
            out.push_str(&self.export_labels[i]);
            out.push_str("\n");
            proof {
                assert(labels.take(i + 1).drop_last() =~= labels.take(i as int));
                assert(out@ =~= head + label_lines(labels.take(i + 1)));
            }
            i = i + 1;
        }
        proof {
            assert(labels.take(labels.len() as int) =~= labels);
        }
        out
    }
}

/// The counts of an archive with these records.
pub open spec fn counts(file: Seq<u8>, path: Seq<char>, root: ArchiveRoot, s: ArchiveStats) -> bool {
    &&& spans_of(file).len() == SPAN_LEN * s.spans
    &&& s.path@ == path
    &&& s.version == VERSION
    &&& s.exports == root.exports@.len()
    &&& s.conversations == root.conversations@.len()
    &&& s.media_posts == root.media_posts@.len()
    &&& s.projects == root.projects@.len()
    &&& s.tasks == root.tasks@.len()
    &&& s.auth_files == root.auth@.len()
    &&& s.billing_files == root.billing@.len()
    &&& s.assets == root.assets@.len()
    &&& s.payload_bytes == layout_at(file).payload_len
    &&& s.text_bytes == layout_at(file).text_len
    &&& s.export_labels@.len() == root.exports@.len()
    &&& forall|i: int|
        0 <= i < root.exports@.len() ==> (#[trigger] s.export_labels@[i])@ == export_label(
            root.exports@[i],
        )
}

impl<'a> Archive<'a> {
    /// Counts of the records in `root`, the decoded payload of this archive,
    /// and of the regions of the file.
    pub fn stats(&self, root: &ArchiveRoot) -> (r: Result<ArchiveStats, Error>)
        requires
            self.wf(),
        ensures
            match r {
                Ok(s) => counts(self.file(), self.path_view(), *root, s),
                Err(e) => spans_of(self.file()).len() % 32 != 0 && e == Error::InvalidArchive,
            },
    {
        let spans = self.span_count()?;
        let mut export_labels: Vec<String> = Vec::new();
        let mut i: usize = 0;
        while i < root.exports.len()
            invariant
                i <= root.exports@.len(),
                export_labels@.len() == i,
                forall|k: int|
                    0 <= k < i ==> (#[trigger] export_labels@[k])@ == export_label(
                        root.exports@[k],
                    ),
            decreases root.exports.len() - i,
        {
            export_labels.push(export_label_of(&root.exports[i]));
            i = i + 1;
        }
        Ok(
            ArchiveStats {
                path: self.path().to_owned(),
                version: VERSION,
                exports: root.exports.len(),
                conversations: root.conversations.len(),
                media_posts: root.media_posts.len(),
                projects: root.projects.len(),
                tasks: root.tasks.len(),
                auth_files: root.auth.len(),
                billing_files: root.billing.len(),
                assets: root.assets.len(),
                payload_bytes: self.payload_len(),
                text_bytes: self.text_len(),
                spans,
                export_labels,
            },
        )
    }
}

/// The counts of an archive as lines of text.
pub fn write_stats(archive: &Archive, root: &ArchiveRoot) -> (r: Result<String, Error>)
    requires
        archive.wf(),
    ensures
        match r {
            Ok(text) => exists|s: ArchiveStats| #[trigger]
                counts(archive.file(), archive.path_view(), *root, s) && text@ == s.lines(),
            Err(e) => spans_of(archive.file()).len() % 32 != 0 && e == Error::InvalidArchive,
        },
{
    let stats = archive.stats(root)?;
    Ok(stats.to_text())
}

/// The counts of an archive are those of what it holds, each of its own kind.
pub proof fn law_counts(file: Seq<u8>, path: Seq<char>, root: ArchiveRoot, s: ArchiveStats, i: int)
    requires
        counts(file, path, root, s),
    ensures
        s.path@ == path,
        s.exports == root.exports@.len(),
        s.conversations == root.conversations@.len(),
        s.media_posts == root.media_posts@.len(),
        s.projects == root.projects@.len(),
        s.tasks == root.tasks@.len(),
        s.auth_files == root.auth@.len(),
        s.billing_files == root.billing@.len(),
        s.assets == root.assets@.len(),
        32 * s.spans == spans_of(file).len(),
        0 <= i < root.exports@.len() && root.exports@[i].id is None ==> s.export_labels@[i]@
            == root.exports@[i].source_path@,
        0 <= i < root.exports@.len() && root.exports@[i].id is Some ==> s.export_labels@[i]@
            == root.exports@[i].source_path@ + seq![' ', '(', 'i', 'd', '='] + root.exports@[i].id->0@
            + seq![')'],
{
    reveal_strlit(" (id=");
    reveal_strlit(")");
    assert(" (id="@ =~= seq![' ', '(', 'i', 'd', '=']);
    assert(")"@ =~= seq![')']);
}

/// The line of a count: its name, a colon and the number.
pub proof fn law_count_line(name: Seq<char>, n: nat)
    ensures
        count_line(name, n) == name + seq![':', ' '] + decimal(n) + seq!['\n'],
{
    reveal_strlit(": ");
    reveal_strlit("\n");
    assert(": "@ =~= seq![':', ' ']);
    assert("\n"@ =~= seq!['\n']);
}

/// A text stands in another.
pub open spec fn stands_in(part: Seq<char>, whole: Seq<char>) -> bool {
    exists|a: Seq<char>, b: Seq<char>| whole == #[trigger] (a + part + b)
}

/// The printed counts name each number as what it counts.
pub proof fn law_stats_text(s: ArchiveStats)
    ensures
        stands_in("export dumps: "@ + decimal(s.exports as nat) + "\n"@, s.lines()),
        stands_in("unique conversations: "@ + decimal(s.conversations as nat) + "\n"@, s.lines()),
        stands_in("media_posts: "@ + decimal(s.media_posts as nat) + "\n"@, s.lines()),
        stands_in("projects: "@ + decimal(s.projects as nat) + "\n"@, s.lines()),
        stands_in("tasks: "@ + decimal(s.tasks as nat) + "\n"@, s.lines()),
        stands_in("auth_files: "@ + decimal(s.auth_files as nat) + "\n"@, s.lines()),
        stands_in("billing_files: "@ + decimal(s.billing_files as nat) + "\n"@, s.lines()),
        stands_in("assets: "@ + decimal(s.assets as nat) + "\n"@, s.lines()),
        stands_in("spans: "@ + decimal(s.spans as nat) + "\n"@, s.lines()),
        stands_in("path: "@ + s.path@ + "\n"@, s.lines()),
{
    let h = "majestic archive version "@ + decimal(s.version as nat) + "\n"@;
    let p = "path: "@ + s.path@ + "\n"@;
    let t0 = h + "path: "@ + s.path@ + "\n"@;
    assert(t0 =~= h + p);
    lemma_appended(h, p);
    let t1 = t0 + count_line("export dumps"@, s.exports as nat);
    lemma_appended(t0, count_line("export dumps"@, s.exports as nat));
    let t2 = t1 + count_line("unique conversations"@, s.conversations as nat);
    lemma_appended(t1, count_line("unique conversations"@, s.conversations as nat));
    let t3 = t2 + count_line("media_posts"@, s.media_posts as nat);
    lemma_appended(t2, count_line("media_posts"@, s.media_posts as nat));
    let t4 = t3 + count_line("projects"@, s.projects as nat);
    lemma_appended(t3, count_line("projects"@, s.projects as nat));
    let t5 = t4 + count_line("tasks"@, s.tasks as nat);
    lemma_appended(t4, count_line("tasks"@, s.tasks as nat));
    let t6 = t5 + count_line("auth_files"@, s.auth_files as nat);
    lemma_appended(t5, count_line("auth_files"@, s.auth_files as nat));
    let t7 = t6 + count_line("billing_files"@, s.billing_files as nat);
    lemma_appended(t6, count_line("billing_files"@, s.billing_files as nat));
    let t8 = t7 + count_line("assets"@, s.assets as nat);
    lemma_appended(t7, count_line("assets"@, s.assets as nat));
    let t9 = t8 + count_line("payload_bytes"@, s.payload_bytes as nat);
    lemma_appended(t8, count_line("payload_bytes"@, s.payload_bytes as nat));
    let t10 = t9 + count_line("text_bytes"@, s.text_bytes as nat);
    lemma_appended(t9, count_line("text_bytes"@, s.text_bytes as nat));
    let t11 = t10 + count_line("spans"@, s.spans as nat);
    lemma_appended(t10, count_line("spans"@, s.spans as nat));
    lemma_appended(t11, label_lines(views(s.export_labels@)));
    assert(s.lines() == t11 + label_lines(views(s.export_labels@)));
    lemma_count_names(s);
}

/// What stands in a text stands in it with more behind it, and so does that.
proof fn lemma_appended(a: Seq<char>, b: Seq<char>)
    ensures
        stands_in(b, a + b),
        forall|x: Seq<char>| #[trigger] stands_in(x, a) ==> stands_in(x, a + b),
{
    let none = Seq::<char>::empty();
    assert(a + b =~= a + b + none);
    assert forall|x: Seq<char>| #[trigger] stands_in(x, a) implies stands_in(x, a + b) by {
        let (l, r) = choose|l: Seq<char>, r: Seq<char>| a == #[trigger] (l + x + r);
        assert(a + b =~= l + x + (r + b));
    }
}

proof fn lemma_count_names(s: ArchiveStats)
    ensures
        count_line("export dumps"@, s.exports as nat) == "export dumps: "@ + decimal(s.exports as nat) + "\n"@,
        count_line("unique conversations"@, s.conversations as nat) == "unique conversations: "@ + decimal(s.conversations as nat) + "\n"@,
        count_line("media_posts"@, s.media_posts as nat) == "media_posts: "@ + decimal(s.media_posts as nat) + "\n"@,
        count_line("projects"@, s.projects as nat) == "projects: "@ + decimal(s.projects as nat) + "\n"@,
        count_line("tasks"@, s.tasks as nat) == "tasks: "@ + decimal(s.tasks as nat) + "\n"@,
        count_line("auth_files"@, s.auth_files as nat) == "auth_files: "@ + decimal(s.auth_files as nat) + "\n"@,
        count_line("billing_files"@, s.billing_files as nat) == "billing_files: "@ + decimal(s.billing_files as nat) + "\n"@,
        count_line("assets"@, s.assets as nat) == "assets: "@ + decimal(s.assets as nat) + "\n"@,
        count_line("spans"@, s.spans as nat) == "spans: "@ + decimal(s.spans as nat) + "\n"@,
{
    reveal_strlit(": ");
    assert("export dumps"@ + ": "@ =~= "export dumps: "@) by {
        reveal_strlit("export dumps");
        reveal_strlit("export dumps: ");
    }
    assert("unique conversations"@ + ": "@ =~= "unique conversations: "@) by {
        reveal_strlit("unique conversations");
        reveal_strlit("unique conversations: ");
    }
    assert("media_posts"@ + ": "@ =~= "media_posts: "@) by {
        reveal_strlit("media_posts");
        reveal_strlit("media_posts: ");
    }
    assert("projects"@ + ": "@ =~= "projects: "@) by {
        reveal_strlit("projects");
        reveal_strlit("projects: ");
    }
    assert("tasks"@ + ": "@ =~= "tasks: "@) by {
        reveal_strlit("tasks");
        reveal_strlit("tasks: ");
    }
    assert("auth_files"@ + ": "@ =~= "auth_files: "@) by {
        reveal_strlit("auth_files");
        reveal_strlit("auth_files: ");
    }
    assert("billing_files"@ + ": "@ =~= "billing_files: "@) by {
        reveal_strlit("billing_files");
        reveal_strlit("billing_files: ");
    }
    assert("assets"@ + ": "@ =~= "assets: "@) by {
        reveal_strlit("assets");
        reveal_strlit("assets: ");
    }
    assert("spans"@ + ": "@ =~= "spans: "@) by {
        reveal_strlit("spans");
        reveal_strlit("spans: ");
    }
}

} // verus!
