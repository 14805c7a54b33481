//! What an ingest takes from each kind of source.
use vstd::prelude::*;

use crate::catalog::{ExportManifest, TaggedAuth, TaggedBilling, TaggedJson};
use crate::infer::{agree, joined_scope, opt_scope, scope_result, InferredScope};
use crate::ingest::Accumulator;
use crate::merge::reversed;
use crate::pack::says;
use crate::pairs::placed;
use crate::paths::opt_view;
use crate::records::{AuthFile, BillingFile};
use crate::scan::SourceKind;
use crate::schema::{Atom, ExtraMap, JsonAtom};
use crate::text::{cat, cat3, same_str};
use crate::zip::ZipKind;
use crate::Error;

verus! {

/// Lists of a backend file that are kept as they are.
#[derive(Clone, Copy, Debug, PartialEq, Eq, Structural)]
pub enum Spill {
    MediaPosts,
    Projects,
    Tasks,
}

/// Where a top-level key of a backend file goes.
#[derive(Clone, Copy, Debug, PartialEq, Eq, Structural)]
pub enum BackendPart {
    /// A list of conversations.
    Conversations,
    /// A list of other values.
    Spill(Spill),
    /// One value, kept with the export.
    Leftover,
}

/// Where a top-level key of a backend file goes.
pub open spec fn part_of(key: Seq<char>) -> BackendPart {
    if key == "conversations"@ {
        BackendPart::Conversations
    } else if key == "media_posts"@ {
        BackendPart::Spill(Spill::MediaPosts)
    } else if key == "projects"@ {
        BackendPart::Spill(Spill::Projects)
    } else if key == "tasks"@ {
        BackendPart::Spill(Spill::Tasks)
    } else {
        BackendPart::Leftover
    }
}

/// Where a top-level key of a backend file goes.
pub fn backend_part(key: &str) -> (r: BackendPart)
    ensures
        r == part_of(key@),
{
    if same_str(key, "conversations") {
        BackendPart::Conversations
    } else if same_str(key, "media_posts") {
        BackendPart::Spill(Spill::MediaPosts)
    } else if same_str(key, "projects") {
        BackendPart::Spill(Spill::Projects)
    } else if same_str(key, "tasks") {
        BackendPart::Spill(Spill::Tasks)
    } else {
        BackendPart::Leftover
    }
}

impl Accumulator {
    /// The values of a list.
    pub open spec fn spilled(self, part: Spill) -> Seq<TaggedJson> {
        match part {
            Spill::MediaPosts => self.media_posts@,
            Spill::Projects => self.projects@,
            Spill::Tasks => self.tasks@,
        }
    }

    /// The lists, manifests and account files aside, nothing differs.
    pub open spec fn same_core(self, other: Accumulator) -> bool {
        &&& self.conversations == other.conversations
        &&& self.by_id == other.by_id
        &&& self.idents == other.idents
        &&& self.assets == other.assets
        &&& self.asset_digests == other.asset_digests
        &&& self.asset_bodies == other.asset_bodies
        &&& self.max_uncompressed_bytes == other.max_uncompressed_bytes
    }

    /// Keeps one value of a list.
    pub fn add_spill(&mut self, part: Spill, export_index: u32, value: JsonAtom)
        ensures
            final(self).spilled(part) == old(self).spilled(part).push(
                (TaggedJson { export_index, value }),
            ),
            forall|other: Spill|
                other != part ==> #[trigger] final(self).spilled(other) == old(self).spilled(other),
            final(self).same_core(*old(self)),
            final(self).exports == old(self).exports,
            final(self).auth == old(self).auth,
            final(self).billing == old(self).billing,
    {
        let row = TaggedJson { export_index, value };
        match part {
            Spill::MediaPosts => self.media_posts.push(row),
            Spill::Projects => self.projects.push(row),
            Spill::Tasks => self.tasks.push(row),
        }
    }

    /// Keeps the account file of an export.
    pub fn add_auth(&mut self, export_index: u32, file: AuthFile)
        ensures
            final(self).auth@ == old(self).auth@.push((TaggedAuth { export_index, file })),
            forall|part: Spill| #[trigger] final(self).spilled(part) == old(self).spilled(part),
            final(self).same_core(*old(self)),
            final(self).exports == old(self).exports,
            final(self).billing == old(self).billing,
    {
        self.auth.push(TaggedAuth { export_index, file });
    }

    /// Keeps the billing file of an export.
    pub fn add_billing(&mut self, export_index: u32, file: BillingFile)
        ensures
            final(self).billing@ == old(self).billing@.push((TaggedBilling { export_index, file })),
            forall|part: Spill| #[trigger] final(self).spilled(part) == old(self).spilled(part),
            final(self).same_core(*old(self)),
            final(self).exports == old(self).exports,
            final(self).auth == old(self).auth,
    {
        self.billing.push(TaggedBilling { export_index, file });
    }

    /// Lists an export that was read. Its number is the one that
    /// [`Accumulator::next_export_index`] gave.
    pub fn close_export(&mut self, manifest: ExportManifest)
        ensures
            final(self).exports@ == old(self).exports@.push(manifest),
            forall|part: Spill| #[trigger] final(self).spilled(part) == old(self).spilled(part),
            final(self).same_core(*old(self)),
            final(self).auth == old(self).auth,
            final(self).billing == old(self).billing,
    {
        self.exports.push(manifest);
    }
}

/// The manifest of an export.
pub fn manifest(source_path: &str, id: Option<String>, extra: ExtraMap) -> (r: ExportManifest)
    ensures
        r.source_path@ == source_path@,
        opt_view(r.id) == opt_view(id),
        r.extra@ == extra@,
{
    ExportManifest { source_path: source_path.to_owned(), id, extra }
}

/// What is hashed to know an export again.
#[derive(Clone, Copy, Debug, PartialEq, Eq, Structural)]
pub enum PayloadPart {
    /// The file, or the zip itself.
    File,
    /// The conversation files, by name.
    ConversationFiles,
    /// The backend file inside the zip.
    BackendEntry,
    /// The Telegram document inside the zip.
    ResultEntry,
}

/// What is hashed to know a source again, and as which kind of export.
pub open spec fn payload_of(kind: SourceKind, zip: Option<ZipKind>) -> Option<
    (ZipKind, PayloadPart),
> {
    match kind {
        SourceKind::ChatGpt => Some((ZipKind::ChatGpt, PayloadPart::ConversationFiles)),
        SourceKind::Backend => Some((ZipKind::Grok, PayloadPart::File)),
        SourceKind::Telegram => Some((ZipKind::Telegram, PayloadPart::File)),
        SourceKind::Zip => match zip {
            Some(ZipKind::ChatGpt) => Some((ZipKind::ChatGpt, PayloadPart::ConversationFiles)),
            Some(ZipKind::Grok) => Some((ZipKind::Grok, PayloadPart::BackendEntry)),
            Some(ZipKind::Telegram) => Some((ZipKind::Telegram, PayloadPart::ResultEntry)),
            Some(ZipKind::Facebook) => Some((ZipKind::Facebook, PayloadPart::File)),
            Some(ZipKind::Twitter) => Some((ZipKind::Twitter, PayloadPart::File)),
            None => None,
        },
        _ => None,
    }
}

/// What is hashed to know a source again. `zip` is the kind of a zip.
pub fn source_payload_identity(kind: SourceKind, zip: Option<ZipKind>) -> (r: Option<
    (ZipKind, PayloadPart),
>)
    ensures
        r == payload_of(kind, zip),
{
    match kind {
        SourceKind::ChatGpt => Some((ZipKind::ChatGpt, PayloadPart::ConversationFiles)),
        SourceKind::Backend => Some((ZipKind::Grok, PayloadPart::File)),
        SourceKind::Telegram => Some((ZipKind::Telegram, PayloadPart::File)),
        SourceKind::Zip => match zip {
            Some(ZipKind::ChatGpt) => Some((ZipKind::ChatGpt, PayloadPart::ConversationFiles)),
            Some(ZipKind::Grok) => Some((ZipKind::Grok, PayloadPart::BackendEntry)),
            Some(ZipKind::Telegram) => Some((ZipKind::Telegram, PayloadPart::ResultEntry)),
            Some(ZipKind::Facebook) => Some((ZipKind::Facebook, PayloadPart::File)),
            Some(ZipKind::Twitter) => Some((ZipKind::Twitter, PayloadPart::File)),
            None => None,
        },
        _ => None,
    }
}

/// A zip and an unpacked export can be the same export only for the kinds
/// that both forms have.
pub proof fn law_zip_and_folder_share_kinds(
    kind: SourceKind,
    zip: ZipKind,
    export: ZipKind,
    part: PayloadPart,
    zip_part: PayloadPart,
)
    requires
        kind != SourceKind::Zip,
        payload_of(kind, None) == Some((export, part)),
        payload_of(SourceKind::Zip, Some(zip)) == Some((export, zip_part)),
    ensures
        zip == ZipKind::ChatGpt || zip == ZipKind::Grok || zip == ZipKind::Telegram,
{
}

/// The kind of a zip that is ingested. One of no known kind is refused.
pub fn ingest_zip(kind: Option<ZipKind>, path: &str) -> (r: Result<ZipKind, Error>)
    ensures
        match r {
            Ok(k) => kind == Some(k),
            Err(e) => kind is None && says(
                e,
                "zip is not a known export (ChatGPT conversations+user.json, Grok prod-grok-backend.json, Telegram result.json, Facebook your_facebook_activity, or X account archive): "@
                    + path@,
            ),
        },
{
    match kind {
        Some(k) => Ok(k),
        None => Err(
            Error::Ingest(
                cat(
                    "zip is not a known export (ChatGPT conversations+user.json, Grok prod-grok-backend.json, Telegram result.json, Facebook your_facebook_activity, or X account archive): ",
                    path,
                ),
            ),
        ),
    }
}

/// The refusal of a zip without an entry that it needs.
pub fn missing_entry_error(file_name: &str, path: &str) -> (r: Error)
    ensures
        says(r, "zip has no "@ + file_name@ + ": "@ + path@),
{
    let head = cat3("zip has no ", file_name, ": ");
    Error::Ingest(cat(&head, path))
}

/// The refusal of a zip whose `result.json` is no Telegram document.
pub fn no_telegram_zip_error() -> (r: Error)
    ensures
        says(r, "zip result.json is not a Telegram Desktop export"@),
{
    Error::Ingest("zip result.json is not a Telegram Desktop export".to_owned())
}

/// The refusal of a folder without a session.
pub fn no_session_error(dir: &str) -> (r: Error)
    ensures
        says(r, "no grok-oss session JSONL under "@ + dir@),
{
    Error::Ingest(cat("no grok-oss session JSONL under ", dir))
}

/// The refusal of a folder without markdown.
pub fn no_markdown_error(root: &str) -> (r: Error)
    ensures
        says(r, "no markdown files under "@ + root@),
{
    Error::Ingest(cat("no markdown files under ", root))
}

/// The refusal of a folder without characters.
pub fn no_character_error(root: &str) -> (r: Error)
    ensures
        says(r, "no character TOML under "@ + root@),
{
    Error::Ingest(cat("no character TOML under ", root))
}

/// The refusal of an input that is neither a file nor a folder.
pub fn no_node_error(input: &str) -> (r: Error)
    ensures
        says(r, "not a file or directory: "@ + input@),
{
    Error::Ingest(cat("not a file or directory: ", input))
}

/// The refusal of a file that cannot be parsed.
pub fn parse_failure(label: &str, error: &str) -> (r: Error)
    ensures
        says(r, "failed to parse "@ + label@ + ": "@ + error@),
{
    let head = cat3("failed to parse ", label, ": ");
    Error::Ingest(cat(&head, error))
}

/// What an X archive keeps with its export: the user name, where it has one.
pub open spec fn username_fields(username: Option<Seq<char>>) -> Seq<(Seq<char>, Atom)> {
    match username {
        Some(s) => seq![("username"@, Atom::Text(s))],
        None => Seq::empty(),
    }
}

/// What an X archive keeps with its export.
pub fn twitter_username_extra(username: Option<String>) -> (r: ExtraMap)
    ensures
        r@ == username_fields(opt_view(username)),
{
    let mut extra = ExtraMap::new();
    match username {
        Some(s) => {
            let ghost name = s@;
            extra.insert("username".to_owned(), JsonAtom::String(s));
            proof {
                assert(placed(Seq::<(Seq<char>, Atom)>::empty(), "username"@, Atom::Text(name))
                    =~= seq![("username"@, Atom::Text(name))]);
            }
        },
        None => {},
    }
    extra
}

/// The scopes found before `i` that agree: `None` in the pair is no scope
/// yet, and no pair is a disagreement or a failure.
pub open spec fn nested_scope(v: Seq<Result<InferredScope, Error>>, i: int) -> Option<
    Option<(Seq<char>, Seq<char>)>,
>
    decreases i,
{
    if i <= 0 {
        Some(None)
    } else {
        match nested_scope(v, i - 1) {
            None => None,
            Some(held) => match v[i - 1] {
                Ok(s) => match joined_scope(held, s@) {
                    Some(x) => Some(Some(x)),
                    None => None,
                },
                Err(Error::NotGrokExport) => Some(held),
                Err(_) => None,
            },
        }
    }
}

/// `r` is the scope on which the sources in a dump agree. A source that
/// infers none does not count.
pub open spec fn nested_agree(
    v: Seq<Result<InferredScope, Error>>,
    r: Result<(Seq<char>, Seq<char>), Error>,
) -> bool {
    match r {
        Ok(s) => nested_scope(v, v.len() as int) == Some(Some(s)),
        Err(e) => {
            ||| nested_scope(v, v.len() as int) == Some(None::<(Seq<char>, Seq<char>)>) && e
                == Error::NotGrokExport
            ||| exists|i: int|
                0 <= i < v.len() && nested_scope(v, i) is Some && #[trigger] nested_scope(v, i + 1)
                    is None && (match v[i] {
                    Ok(_) => e == Error::AccountDisagree,
                    Err(x) => e == x,
                })
        },
    }
}

/// A source from which no scope can be inferred does not count, wherever it
/// stands among the others.
pub proof fn law_uninferable_sources_do_not_count(
    v: Seq<Result<InferredScope, Error>>,
    at: int,
    i: int,
)
    requires
        0 <= at <= i <= v.len(),
    ensures
        nested_scope(v.insert(at, Err(Error::NotGrokExport)), i + 1) == nested_scope(v, i),
    decreases i,
{
    let w = v.insert(at, Err(Error::NotGrokExport));
    if i == at {
        lemma_scope_before(v, at, at);
        assert(w[at] == Err::<InferredScope, Error>(Error::NotGrokExport));
    } else {
        law_uninferable_sources_do_not_count(v, at, i - 1);
        assert(w[i] == v[i - 1]);
    }
}

proof fn lemma_scope_before(v: Seq<Result<InferredScope, Error>>, at: int, i: int)
    requires
        0 <= i <= at <= v.len(),
    ensures
        nested_scope(v.insert(at, Err(Error::NotGrokExport)), i) == nested_scope(v, i),
    decreases i,
{
    if i > 0 {
        lemma_scope_before(v, at, i - 1);
    }
}

/// The scope on which the sources in a dump agree.
pub fn infer_ingest_scope_from_discovered(found: Vec<Result<InferredScope, Error>>) -> (r: Result<
    InferredScope,
    Error,
>)
    ensures
        nested_agree(found@, scope_result(r)),
{
    let ghost given = found@;
    let total: usize = found.len();
    let mut rest = reversed(found);
    let mut held: Option<InferredScope> = None;
    let mut done: usize = 0;
    proof {
        assert(given.skip(0) =~= given);
    }
    while done < total
        invariant
            total == given.len(),
            given == found@,
            done <= total,
            rest@ == given.skip(done as int).reverse(),
            nested_scope(given, done as int) == Some(opt_scope(held)),
        decreases total - done,
    {
        let x = match rest.pop() {
            Some(x) => x,
            None => {
                proof {
                    assert(false);
                }
                return Err(Error::NotGrokExport);
            },
        };
        proof {
            assert(x == given[done as int]);
            assert(rest@ =~= given.skip(done + 1).reverse());
        }
        let ghost next_held = nested_scope(given, done + 1);
        match x {
            Ok(s) => match agree(held, s) {
                Ok(h) => {
                    held = Some(h);
                },
                Err(e) => {
                    proof {
                        assert(next_held is None);
                    }
                    return Err(e);
                },
            },
            Err(Error::NotGrokExport) => {},
            Err(e) => {
                proof {
                    assert(next_held is None);
                }
                return Err(e);
            },
        }
        done = done + 1;
    }
    match held {
        Some(s) => Ok(s),
        None => Err(Error::NotGrokExport),
    }
}

/// The scope of an input: its own shape decides, and only where it has none
/// do the sources in it.
pub fn own_or_nested(own: Result<InferredScope, Error>) -> (r: Option<Result<InferredScope, Error>>)
    ensures
        match own {
            Err(Error::NotGrokExport) => r is None,
            _ => r == Some(own),
        },
{
    match own {
        Err(Error::NotGrokExport) => None,
        Ok(s) => Some(Ok(s)),
        Err(e) => Some(Err(e)),
    }
}

/// What the keys of a backend file hold: conversations, the three lists that
/// are kept as they are, and what is left over.
pub proof fn law_backend_parts(key: Seq<char>)
    ensures
        part_of(key) == BackendPart::Conversations <==> key == "conversations"@,
        part_of(key) == BackendPart::Spill(Spill::MediaPosts) <==> key == "media_posts"@,
        part_of(key) == BackendPart::Spill(Spill::Projects) <==> key == "projects"@,
        part_of(key) == BackendPart::Spill(Spill::Tasks) <==> key == "tasks"@,
{
    reveal_strlit("conversations");
    reveal_strlit("media_posts");
    reveal_strlit("projects");
    reveal_strlit("tasks");
    assert("conversations"@[0] == 'c' && "media_posts"@[0] == 'm' && "projects"@[0] == 'p'
        && "tasks"@[0] == 't');
}

/// What of a source is compared to tell copies: the conversation files of a
/// ChatGPT export, the backend file of a Grok export, the result file of a
/// Telegram export, and the whole file of the others. A folder of notes and
/// an unknown zip are never copies.
pub proof fn law_compared_parts()
    ensures
        payload_of(SourceKind::ChatGpt, None) == Some(
            (ZipKind::ChatGpt, PayloadPart::ConversationFiles),
        ),
        payload_of(SourceKind::Zip, Some(ZipKind::ChatGpt)) == Some(
            (ZipKind::ChatGpt, PayloadPart::ConversationFiles),
        ),
        payload_of(SourceKind::Backend, None) == Some((ZipKind::Grok, PayloadPart::File)),
        payload_of(SourceKind::Zip, Some(ZipKind::Grok)) == Some(
            (ZipKind::Grok, PayloadPart::BackendEntry),
        ),
        payload_of(SourceKind::Telegram, None) == Some((ZipKind::Telegram, PayloadPart::File)),
        payload_of(SourceKind::Zip, Some(ZipKind::Telegram)) == Some(
            (ZipKind::Telegram, PayloadPart::ResultEntry),
        ),
        payload_of(SourceKind::Zip, Some(ZipKind::Facebook)) == Some(
            (ZipKind::Facebook, PayloadPart::File),
        ),
        payload_of(SourceKind::Zip, Some(ZipKind::Twitter)) == Some(
            (ZipKind::Twitter, PayloadPart::File),
        ),
        payload_of(SourceKind::Zip, None) is None,
        payload_of(SourceKind::Markdown, None) is None,
        payload_of(SourceKind::Facebook, None) is None,
        payload_of(SourceKind::Twitter, None) is None,
        payload_of(SourceKind::Sqlite, None) is None,
{
}

/// The scopes found in a folder agree when all of them are the same, and that
/// is the scope of the folder.
pub proof fn law_scopes_in_a_folder(
    v: Seq<Result<InferredScope, Error>>,
    scope: (Seq<char>, Seq<char>),
    i: int,
    r: Result<(Seq<char>, Seq<char>), Error>,
)
    requires
        nested_agree(v, r),
    ensures
        v.len() > 0 && (forall|k: int|
            0 <= k < v.len() ==> (#[trigger] v[k]) is Ok && v[k]->Ok_0@ == scope) ==> r == Ok::<
            (Seq<char>, Seq<char>),
            Error,
        >(scope),
        r is Ok && 0 <= i < v.len() && v[i] is Ok ==> v[i]->Ok_0@ == r->Ok_0,
        r is Ok && 0 <= i < v.len() && v[i] is Err ==> v[i]->Err_0 == Error::NotGrokExport,
        v.len() == 0 ==> r == Err::<(Seq<char>, Seq<char>), Error>(Error::NotGrokExport),
{
    if forall|k: int| 0 <= k < v.len() ==> (#[trigger] v[k]) is Ok && v[k]->Ok_0@ == scope {
        assert forall|n: int| 0 <= n <= v.len() implies #[trigger] nested_scope(v, n) is Some by {
            lemma_all_same(v, scope, n);
        }
        lemma_all_same(v, scope, v.len() as int);
    }
    if r is Ok && 0 <= i < v.len() {
        lemma_held_by_all(v, v.len() as int, i);
    }
}

proof fn lemma_all_same(
    v: Seq<Result<InferredScope, Error>>,
    scope: (Seq<char>, Seq<char>),
    n: int,
)
    requires
        0 <= n <= v.len(),
        forall|k: int| 0 <= k < v.len() ==> (#[trigger] v[k]) is Ok && v[k]->Ok_0@ == scope,
    ensures
        nested_scope(v, n) == Some(
            if n == 0 {
                None
            } else {
                Some(scope)
            },
        ),
    decreases n,
{
    if n > 0 {
        lemma_all_same(v, scope, n - 1);
        assert(v[n - 1] is Ok);
    }
}

proof fn lemma_held_by_all(v: Seq<Result<InferredScope, Error>>, n: int, i: int)
    requires
        0 <= i < n <= v.len(),
        nested_scope(v, n) is Some,
    ensures
        v[i] is Ok ==> nested_scope(v, n) == Some(Some(v[i]->Ok_0@)),
        v[i] is Err ==> v[i]->Err_0 == Error::NotGrokExport,
    decreases n,
{
    if i < n - 1 {
        lemma_held_by_all(v, n - 1, i);
    }
}

} // verus!
