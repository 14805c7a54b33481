//! Which archive an ingest writes to: service folder and account, taken from
//! flags or from the shape of the inputs.
use vstd::prelude::*;

use crate::cards::{has_extension, name_or_empty, name_or_empty_of};
use crate::memex::{default_memex_dir, scoped_archive_path, scoped_fault, scoped_path};
use crate::merge::{filled, nonempty, reversed};
use crate::names::{
    account_from_path, chatexport_result, conversations_json, is_chatexport_result_json,
    is_conversations_json_name, is_user_json_name, meta_path_account, user_json,
    BACKEND_FILE_NAME, RESULT_FILE_NAME,
};
use crate::pack::says;
use crate::pairs::lookup;
use crate::paths::{
    file_name, file_name_of, join_path, joined, law_joined_name, name_extension, opt_str, opt_view,
    parent_name, parent_name_of, plain_name,
};
use crate::records::AuthFile;
use crate::scan::{
    file_kind, is_agents_reports_dir, is_backend_file_name, is_markdown_file,
    is_session_sqlite_path, reports_dir, FileMarks, SourceKind, GROK_OSS_DB_NAME,
    SESSION_SEARCH_SQLITE_NAME,
};
use crate::schema::{lemma_atom, opt_atom, Atom, JsonAtom};
use crate::search::copied_opt;
use crate::sessions::named;
use crate::telegram::own_text;
use crate::text::{same_ascii, same_str};
use crate::x_archive::{account_like, usable_account};
use crate::zip::{is_zip_path, zip_path, ZipKind};
use crate::{
    Error, CHATGPT_SERVICE, GROK_OSS_SERVICE, GROK_SERVICE, MARKDOWN_SERVICE, META_SERVICE,
    OBSIDIAN_SERVICE, REPORTS_SERVICE, TELEGRAM_SERVICE, X_SERVICE,
};

verus! {

/// Service folder and account of an archive.
#[derive(Debug, Clone, PartialEq, Eq)]
pub struct InferredScope {
    pub service: String,
    pub account: String,
}

impl View for InferredScope {
    type V = (Seq<char>, Seq<char>);

    open spec fn view(&self) -> (Seq<char>, Seq<char>) {
        (self.service@, self.account@)
    }
}

/// The shapes of an input, in the order in which they are looked for. The
/// first that fits decides.
#[derive(Clone, Copy, Debug, PartialEq, Eq, Structural)]
pub enum Shape {
    ChatGpt,
    /// A zip file: its kind decides.
    Zip,
    Facebook,
    Twitter,
    /// One backend file.
    BackendFile,
    Telegram,
    /// Backend files somewhere inside.
    GrokTree,
    Obsidian,
    SessionSqlite,
    Reports,
    Markdown,
}

/// The order in which shapes are looked for.
pub open spec fn shape_order() -> Seq<Shape> {
    seq![
        Shape::ChatGpt,
        Shape::Zip,
        Shape::Facebook,
        Shape::Twitter,
        Shape::BackendFile,
        Shape::Telegram,
        Shape::GrokTree,
        Shape::Obsidian,
        Shape::SessionSqlite,
        Shape::Reports,
        Shape::Markdown,
    ]
}

/// The order in which shapes are looked for.
pub fn infer_order() -> (r: Vec<Shape>)
    ensures
        r@ == shape_order(),
{
    let mut v: Vec<Shape> = Vec::new();
    v.push(Shape::ChatGpt);
    v.push(Shape::Zip);
    v.push(Shape::Facebook);
    v.push(Shape::Twitter);
    v.push(Shape::BackendFile);
    v.push(Shape::Telegram);
    v.push(Shape::GrokTree);
    v.push(Shape::Obsidian);
    v.push(Shape::SessionSqlite);
    v.push(Shape::Reports);
    v.push(Shape::Markdown);
    proof {
        assert(v@ =~= shape_order());
    }
    v
}

/// The shape of the export in a zip.
pub open spec fn shape_of_zip(kind: ZipKind) -> Shape {
    match kind {
        ZipKind::ChatGpt => Shape::ChatGpt,
        ZipKind::Facebook => Shape::Facebook,
        ZipKind::Twitter => Shape::Twitter,
        ZipKind::Grok => Shape::GrokTree,
        ZipKind::Telegram => Shape::Telegram,
    }
}

/// The shape of the export in a zip.
pub fn zip_shape(kind: ZipKind) -> (r: Shape)
    ensures
        r == shape_of_zip(kind),
{
    match kind {
        ZipKind::ChatGpt => Shape::ChatGpt,
        ZipKind::Facebook => Shape::Facebook,
        ZipKind::Twitter => Shape::Twitter,
        ZipKind::Grok => Shape::GrokTree,
        ZipKind::Telegram => Shape::Telegram,
    }
}

/// What the caller found out about an input. Only what the shape at hand
/// asks for has to be known.
#[derive(Clone, Copy, Debug, PartialEq, Eq, Structural)]
pub struct ShapeFacts {
    pub is_file: bool,
    pub is_dir: bool,
    /// The kind of a zip.
    pub zip: Option<ZipKind>,
    /// The folder is a ChatGPT export.
    pub chatgpt: bool,
    /// The folder around the input is a ChatGPT export.
    pub in_chatgpt: bool,
    /// The folder is a Facebook or Instagram export.
    pub facebook: bool,
    /// The folder is an X archive.
    pub twitter: bool,
    /// The input, or `result.json` in it, is a Telegram document.
    pub telegram: bool,
    /// There are backend files in it.
    pub backends: bool,
    /// The folder is an Obsidian vault.
    pub obsidian: bool,
    /// The file holds a table of sessions.
    pub session_docs: bool,
    /// There is Markdown in the folder.
    pub markdown: bool,
}

/// Whether an input has a shape.
pub open spec fn shape_fits(shape: Shape, path: Seq<char>, f: ShapeFacts) -> bool {
    let name = name_or_empty(path);
    match shape {
        Shape::ChatGpt => if f.is_file && zip_path(path) {
            f.zip == Some(ZipKind::ChatGpt)
        } else if f.is_file {
            conversations_json(name) || (user_json(name) && f.in_chatgpt)
        } else {
            f.is_dir && f.chatgpt
        },
        Shape::Zip => f.is_file && zip_path(path),
        Shape::Facebook => f.is_dir && f.facebook,
        Shape::Twitter => f.is_dir && f.twitter,
        Shape::BackendFile => f.is_file && file_name(path) == Some(BACKEND_FILE_NAME@),
        Shape::Telegram => if f.is_file {
            f.telegram || chatexport_result(path)
        } else {
            f.is_dir && (f.telegram || chatexport_result(joined(path, RESULT_FILE_NAME@)))
        },
        Shape::GrokTree => f.backends,
        Shape::Obsidian => f.is_dir && f.obsidian,
        Shape::SessionSqlite => f.is_file && !named(path, GROK_OSS_DB_NAME@) && (named(
            path,
            SESSION_SEARCH_SQLITE_NAME@,
        ) || f.session_docs),
        Shape::Reports => f.is_dir && reports_dir(path),
        Shape::Markdown => if f.is_file {
            has_extension(path, "md"@)
        } else {
            f.is_dir && f.markdown
        },
    }
}

/// Whether an input has a shape.
pub fn fits_shape(shape: Shape, path: &str, f: ShapeFacts) -> (r: bool)
    ensures
        r == shape_fits(shape, path@, f),
{
    match shape {
        Shape::ChatGpt => if f.is_file && is_zip_path(path) {
            f.zip == Some(ZipKind::ChatGpt)
        } else if f.is_file {
            let name = name_or_empty_of(path);
            is_conversations_json_name(&name) || (is_user_json_name(&name) && f.in_chatgpt)
        } else {
            f.is_dir && f.chatgpt
        },
        Shape::Zip => f.is_file && is_zip_path(path),
        Shape::Facebook => f.is_dir && f.facebook,
        Shape::Twitter => f.is_dir && f.twitter,
        Shape::BackendFile => f.is_file && is_backend_file_name(path),
        Shape::Telegram => if f.is_file {
            f.telegram || is_chatexport_result_json(path)
        } else {
            f.is_dir && (f.telegram || is_chatexport_result_json(
                &join_path(path, RESULT_FILE_NAME),
            ))
        },
        Shape::GrokTree => f.backends,
        Shape::Obsidian => f.is_dir && f.obsidian,
        Shape::SessionSqlite => f.is_file && is_session_sqlite_path(path, f.session_docs),
        Shape::Reports => f.is_dir && is_agents_reports_dir(path),
        Shape::Markdown => if f.is_file {
            is_markdown_file(path)
        } else {
            f.is_dir && f.markdown
        },
    }
}

/// The database of grok-oss itself is never read as an index of sessions,
/// whatever tables it holds.
pub proof fn law_grok_oss_db_is_no_session_index(path: Seq<char>, f: ShapeFacts, m: FileMarks)
    requires
        named(path, GROK_OSS_DB_NAME@),
    ensures
        !shape_fits(Shape::SessionSqlite, path, f),
        file_kind(path, m) != Some(SourceKind::Sqlite),
{
}

/// The account of the user that runs the program: `USER`, else `USERNAME`.
pub open spec fn user_account(user: Option<Seq<char>>, username: Option<Seq<char>>) -> Option<
    Seq<char>,
> {
    if filled(user) {
        user
    } else if filled(username) {
        username
    } else {
        None
    }
}

/// The account of the user that runs the program. `user` and `username` are
/// the variables `USER` and `USERNAME`.
pub fn process_user_account(user: Option<&str>, username: Option<&str>) -> (r: Result<
    String,
    Error,
>)
    ensures
        match r {
            Ok(s) => user_account(opt_str(user), opt_str(username)) == Some(s@),
            Err(e) => user_account(opt_str(user), opt_str(username)) is None && says(
                e,
                "USER is not set; pass --account"@,
            ),
        },
{
    if let Some(u) = user {
        if !u.is_empty() {
            return Ok(u.to_owned());
        }
    }
    if let Some(u) = username {
        if !u.is_empty() {
            return Ok(u.to_owned());
        }
    }
    Err(Error::Ingest("USER is not set; pass --account".to_owned()))
}

/// The name of the folder that an input is, or stands in.
pub open spec fn folder_account(path: Seq<char>, is_file: bool) -> Option<Seq<char>> {
    if is_file {
        parent_name(path)
    } else {
        file_name(path)
    }
}

/// An account from the name of a folder.
pub fn dir_account_name(path: &str, is_file: bool) -> (r: Result<String, Error>)
    ensures
        match r {
            Ok(s) => folder_account(path@, is_file) == Some(s@) && s@.len() > 0,
            Err(e) => !filled(folder_account(path@, is_file)) && says(
                e,
                "could not infer account from the directory name; pass --account"@,
            ),
        },
{
    let name = if is_file {
        parent_name_of(path)
    } else {
        file_name_of(path)
    };
    if let Some(s) = name {
        if !s.is_empty() {
            return Ok(s);
        }
    }
    Err(
        Error::Ingest(
            "could not infer account from the directory name; pass --account".to_owned(),
        ),
    )
}

/// What a scope is inferred from.
pub struct ScopeFacts {
    pub is_file: bool,
    /// The name that the export itself gives, where it gives one.
    pub name: Option<String>,
    pub user: Option<String>,
    pub username: Option<String>,
}

/// The account for a shape: its own name where it has one, else the user.
pub open spec fn shape_account(shape: Shape, path: Seq<char>, f: ScopeFacts) -> Option<Seq<char>> {
    let own = match shape {
        Shape::Facebook => account_like(meta_path_account(path)),
        Shape::Twitter => account_like(opt_view(f.name)),
        Shape::Telegram => if filled(opt_view(f.name)) {
            opt_view(f.name)
        } else {
            None
        },
        _ => None,
    };
    match shape {
        Shape::BackendFile | Shape::GrokTree => opt_view(f.name),
        Shape::Obsidian | Shape::Markdown => if filled(folder_account(path, f.is_file)) {
            folder_account(path, f.is_file)
        } else {
            None
        },
        Shape::Zip => None,
        _ => if own is Some {
            own
        } else {
            user_account(opt_view(f.user), opt_view(f.username))
        },
    }
}

/// The service folder of a shape.
pub open spec fn shape_service(shape: Shape) -> Seq<char> {
    match shape {
        Shape::ChatGpt => CHATGPT_SERVICE@,
        Shape::Facebook => META_SERVICE@,
        Shape::Twitter => X_SERVICE@,
        Shape::Telegram => TELEGRAM_SERVICE@,
        Shape::Obsidian => OBSIDIAN_SERVICE@,
        Shape::SessionSqlite => GROK_OSS_SERVICE@,
        Shape::Reports => REPORTS_SERVICE@,
        Shape::Markdown => MARKDOWN_SERVICE@,
        Shape::BackendFile | Shape::GrokTree | Shape::Zip => GROK_SERVICE@,
    }
}

/// The error when a shape has no account.
pub open spec fn shape_error(shape: Shape, e: Error) -> bool {
    match shape {
        Shape::BackendFile | Shape::GrokTree => e == Error::MissingXUsername,
        Shape::Obsidian | Shape::Markdown => says(
            e,
            "could not infer account from the directory name; pass --account"@,
        ),
        Shape::Zip => e == Error::NotGrokExport,
        _ => says(e, "USER is not set; pass --account"@),
    }
}

fn service_of(shape: Shape) -> (r: &'static str)
    ensures
        r@ == shape_service(shape),
{
    match shape {
        Shape::ChatGpt => CHATGPT_SERVICE,
        Shape::Facebook => META_SERVICE,
        Shape::Twitter => X_SERVICE,
        Shape::Telegram => TELEGRAM_SERVICE,
        Shape::Obsidian => OBSIDIAN_SERVICE,
        Shape::SessionSqlite => GROK_OSS_SERVICE,
        Shape::Reports => REPORTS_SERVICE,
        Shape::Markdown => MARKDOWN_SERVICE,
        Shape::BackendFile | Shape::GrokTree | Shape::Zip => GROK_SERVICE,
    }
}

fn as_str_opt(s: &Option<String>) -> (r: Option<&str>)
    ensures
        opt_str(r) == opt_view(*s),
{
    match s {
        Some(x) => Some(x.as_str()),
        None => None,
    }
}

fn account_or_user(own: Option<String>, f: &ScopeFacts) -> (r: Result<String, Error>)
    ensures
        match r {
            Ok(s) => Some(s@) == (if opt_view(own) is Some {
                opt_view(own)
            } else {
                user_account(opt_view(f.user), opt_view(f.username))
            }),
            Err(e) => opt_view(own) is None && user_account(
                opt_view(f.user),
                opt_view(f.username),
            ) is None && says(e, "USER is not set; pass --account"@),
        },
{
    match own {
        Some(s) => Ok(s),
        None => process_user_account(as_str_opt(&f.user), as_str_opt(&f.username)),
    }
}

/// The scope of an input of a known shape. A zip of no known kind has none.
pub fn infer_ingest_scope(shape: Shape, path: &str, f: &ScopeFacts) -> (r: Result<
    InferredScope,
    Error,
>)
    ensures
        match r {
            Ok(s) => s.service@ == shape_service(shape) && shape_account(shape, path@, *f) == Some(
                s.account@,
            ),
            Err(e) => shape_account(shape, path@, *f) is None && shape_error(shape, e),
        },
{
    let account = match shape {
        Shape::Zip => {
            return Err(Error::NotGrokExport);
        },
        Shape::BackendFile | Shape::GrokTree => match &f.name {
            Some(s) => Ok(s.clone()),
            None => Err(Error::MissingXUsername),
        },
        Shape::Obsidian | Shape::Markdown => dir_account_name(path, f.is_file),
        Shape::Facebook => account_or_user(usable_account(account_from_path(path)), f),
        Shape::Twitter => account_or_user(usable_account(copied_opt(&f.name)), f),
        Shape::Telegram => {
            let own = if nonempty(&f.name) {
                copied_opt(&f.name)
            } else {
                None
            };
            account_or_user(own, f)
        },
        Shape::ChatGpt | Shape::SessionSqlite | Shape::Reports => account_or_user(None, f),
    };
    match account {
        Ok(account) => Ok(InferredScope { service: service_of(shape).to_owned(), account }),
        Err(e) => Err(e),
    }
}

/// The account of a social export is never an email address, unless it is
/// the name of the user that runs the program.
pub proof fn law_inferred_account_is_no_email(shape: Shape, path: Seq<char>, f: ScopeFacts)
    requires
        shape == Shape::Facebook || shape == Shape::Twitter,
        shape_account(shape, path, f) is Some,
        shape_account(shape, path, f)->0.contains('@'),
    ensures
        shape_account(shape, path, f) == user_account(opt_view(f.user), opt_view(f.username)),
{
}

/// The X username in an auth file.
pub open spec fn auth_name(user: Option<Atom>) -> Option<Seq<char>> {
    match user {
        Some(Atom::Obj(fs)) => own_text(lookup(fs, "xUsername"@)),
        _ => None,
    }
}

/// The X username in an auth file.
pub fn x_username_from_auth(file: &AuthFile) -> (r: Option<String>)
    ensures
        opt_view(r) == auth_name(opt_atom(file.user)),
{
    match &file.user {
        Some(JsonAtom::Object(user)) => {
            proof {
                lemma_atom(arbitrary(), *user);
            }
            match user.get("xUsername") {
                Some(JsonAtom::String(name)) => if name.is_empty() {
                    None
                } else {
                    Some(name.clone())
                },
                _ => None,
            }
        },
        _ => None,
    }
}

/// The account on which the backend files agree. `names` holds the name of
/// each, where it has one.
pub open spec fn agreed(names: Seq<Option<Seq<char>>>, r: Result<Seq<char>, Error>) -> bool {
    match r {
        Ok(s) => names.len() > 0 && forall|i: int|
            0 <= i < names.len() ==> #[trigger] names[i] == Some(s),
        Err(e) => {
            ||| names.len() == 0 && e == Error::NotGrokExport
            ||| exists|i: int|
                0 <= i < names.len() && (#[trigger] names[i]) is None && e
                    == Error::MissingXUsername && first_name_holds(names, i)
            ||| exists|i: int|
                0 < i < names.len() && (#[trigger] names[i]) is Some && names[i] != names[0] && e
                    == Error::AccountDisagree && first_name_holds(names, i)
        },
    }
}

/// The names before `i` are there and the same.
pub open spec fn first_name_holds(names: Seq<Option<Seq<char>>>, i: int) -> bool {
    forall|k: int| 0 <= k < i ==> (#[trigger] names[k]) is Some && names[k] == names[0]
}

/// What names hold, in order.
pub open spec fn opt_views(v: Seq<Option<String>>) -> Seq<Option<Seq<char>>> {
    Seq::new(v.len(), |i: int| opt_view(v[i]))
}

/// What came out, with its text.
pub open spec fn result_view(r: Result<String, Error>) -> Result<Seq<char>, Error> {
    match r {
        Ok(s) => Ok(s@),
        Err(e) => Err(e),
    }
}

/// The account on which the backend files agree.
pub fn infer_account_from_backends(names: &Vec<Option<String>>) -> (r: Result<String, Error>)
    ensures
        agreed(opt_views(names@), result_view(r)),
{
    let ghost all = opt_views(names@);
    let mut account: Option<String> = None;
    let mut i: usize = 0;
    while i < names.len()
        invariant
            i <= names@.len(),
            all == opt_views(names@),
            first_name_holds(all, i as int),
            i == 0 ==> account is None,
            i > 0 ==> account is Some && opt_view(account) == all[0],
        decreases names.len() - i,
    {
        proof {
            assert(all[i as int] == opt_view(names@[i as int]));
        }
        match &names[i] {
            None => {
                return Err(Error::MissingXUsername);
            },
            Some(name) => match &account {
                None => {
                    account = Some(name.clone());
                },
                Some(held) => {
                    if !same_str(held, name) {
                        return Err(Error::AccountDisagree);
                    }
                },
            },
        }
        i = i + 1;
    }
    match account {
        Some(s) => {
            proof {
                assert forall|k: int| 0 <= k < all.len() implies #[trigger] all[k] == Some(s@) by {
                    assert(all[k] == all[0]);
                }
            }
            Ok(s)
        },
        None => Err(Error::NotGrokExport),
    }
}

/// One more scope beside those that agree so far.
pub open spec fn joined_scope(
    held: Option<(Seq<char>, Seq<char>)>,
    next: (Seq<char>, Seq<char>),
) -> Option<(Seq<char>, Seq<char>)> {
    if held is None || held->0 == next {
        Some(next)
    } else {
        None
    }
}

/// One more scope beside those that agree so far. Another scope is refused.
pub fn agree(held: Option<InferredScope>, next: InferredScope) -> (r: Result<InferredScope, Error>)
    ensures
        match r {
            Ok(s) => joined_scope(opt_scope(held), next@) == Some(s@),
            Err(e) => joined_scope(opt_scope(held), next@) is None && e == Error::AccountDisagree,
        },
{
    match held {
        None => Ok(next),
        Some(h) => if same_str(&h.service, &next.service) && same_str(&h.account, &next.account) {
            Ok(h)
        } else {
            Err(Error::AccountDisagree)
        },
    }
}

/// The view of an optional scope.
pub open spec fn opt_scope(s: Option<InferredScope>) -> Option<(Seq<char>, Seq<char>)> {
    match s {
        Some(x) => Some(x@),
        None => None,
    }
}

/// What is known of one input: the scope that it infers, or why not, and
/// whether backend files are in it.
pub struct InputScope {
    pub inferred: Result<InferredScope, Error>,
    pub grok_shaped: bool,
}

/// The scope of an input under the flags: flags win, and an account flag is
/// enough for backend files that name none.
pub open spec fn flagged(
    x: InputScope,
    service: Option<Seq<char>>,
    account: Option<Seq<char>>,
) -> Option<(Seq<char>, Seq<char>)> {
    match x.inferred {
        Ok(s) => Some(
            (
                if service is Some {
                    service->0
                } else {
                    s.service@
                },
                if account is Some {
                    account->0
                } else {
                    s.account@
                },
            ),
        ),
        Err(_) => if x.grok_shaped && account is Some {
            Some(
                (
                    if service is Some {
                        service->0
                    } else {
                        GROK_SERVICE@
                    },
                    account->0,
                ),
            )
        } else {
            None
        },
    }
}

/// The inputs before `i` have scopes, all the same.
pub open spec fn agree_before(
    v: Seq<InputScope>,
    service: Option<Seq<char>>,
    account: Option<Seq<char>>,
    i: int,
) -> bool {
    forall|k: int|
        0 <= k < i ==> flagged(#[trigger] v[k], service, account) is Some && flagged(
            v[k],
            service,
            account,
        ) == flagged(v[0], service, account)
}

/// `r` is the scope on which the inputs agree under the flags.
pub open spec fn inputs_agree(
    v: Seq<InputScope>,
    service: Option<Seq<char>>,
    account: Option<Seq<char>>,
    r: Result<(Seq<char>, Seq<char>), Error>,
) -> bool {
    match r {
        Ok(s) => v.len() > 0 && forall|i: int|
            0 <= i < v.len() ==> flagged(#[trigger] v[i], service, account) == Some(s),
        Err(e) => {
            ||| v.len() == 0 && says(e, "no input paths"@)
            ||| exists|i: int|
                0 <= i < v.len() && flagged(#[trigger] v[i], service, account) is None
                    && v[i].inferred == Err::<InferredScope, Error>(e) && agree_before(
                    v,
                    service,
                    account,
                    i,
                )
            ||| exists|i: int|
                0 < i < v.len() && flagged(#[trigger] v[i], service, account) is Some && flagged(
                    v[i],
                    service,
                    account,
                ) != flagged(v[0], service, account) && e == Error::AccountDisagree && agree_before(
                    v,
                    service,
                    account,
                    i,
                )
        },
    }
}

/// What came out, as plain values.
pub open spec fn scope_result(r: Result<InferredScope, Error>) -> Result<
    (Seq<char>, Seq<char>),
    Error,
> {
    match r {
        Ok(s) => Ok(s@),
        Err(e) => Err(e),
    }
}

fn choose_text(flag: Option<&str>, own: &str) -> (r: String)
    ensures
        r@ == (if flag is Some {
            flag->0@
        } else {
            own@
        }),
{
    match flag {
        Some(s) => s.to_owned(),
        None => own.to_owned(),
    }
}

/// The scope on which all inputs agree. Flags override what is inferred.
pub fn infer_ingest_scope_from_inputs(
    inputs: Vec<InputScope>,
    service: Option<&str>,
    account: Option<&str>,
) -> (r: Result<InferredScope, Error>)
    ensures
        inputs_agree(inputs@, opt_str(service), opt_str(account), scope_result(r)),
{
    let ghost given = inputs@;
    let ghost sv = opt_str(service);
    let ghost av = opt_str(account);
    let total: usize = inputs.len();
    if total == 0 {
        return Err(Error::Ingest("no input paths".to_owned()));
    }
    let mut rest = reversed(inputs);
    let mut held: Option<InferredScope> = None;
    let mut done: usize = 0;
    proof {
        assert(given.skip(0) =~= given);
    }
    while done < total
        invariant
            total == given.len(),
            total > 0,
            done <= total,
            given == inputs@,
            sv == opt_str(service),
            av == opt_str(account),
            rest@ == given.skip(done as int).reverse(),
            done == 0 ==> held is None,
            done > 0 ==> held is Some,
            forall|k: int| 0 <= k < done ==> flagged(#[trigger] given[k], sv, av) == opt_scope(held),
        decreases total - done,
    {
        let x = match rest.pop() {
            Some(x) => x,
            None => {
                proof {
                    assert(false);
                }
                return Err(Error::NotGrokExport);
            },
        };
        proof {
            assert(x == given[done as int]);
            assert(rest@ =~= given.skip(done + 1).reverse());
            if done > 0 {
                assert(flagged(given[0], sv, av) == opt_scope(held));
            }
            assert(agree_before(given, sv, av, done as int));
        }
        let next = match x.inferred {
            Ok(s) => InferredScope {
                service: choose_text(service, &s.service),
                account: choose_text(account, &s.account),
            },
            Err(e) => match account {
                Some(a) => {
                    if !x.grok_shaped {
                        proof {
                            assert(given[done as int].inferred == Err::<InferredScope, Error>(e));
                        }
                        return Err(e);
                    }
                    InferredScope {
                        service: choose_text(service, GROK_SERVICE),
                        account: a.to_owned(),
                    }
                },
                None => {
                    proof {
                        assert(given[done as int].inferred == Err::<InferredScope, Error>(e));
                    }
                    return Err(e);
                },
            },
        };
        proof {
            assert(flagged(given[done as int], sv, av) == Some(next@));
        }
        match agree(held, next) {
            Ok(s) => {
                held = Some(s);
            },
            Err(e) => {
                return Err(e);
            },
        }
        done = done + 1;
    }
    match held {
        Some(s) => Ok(s),
        None => Err(Error::NotGrokExport),
    }
}

/// `r` is the archive of an ingest under `memex_dir`: that of the flags where
/// both are there, else that of the inferred scope.
pub open spec fn resolves(
    memex_dir: Seq<char>,
    service: Option<Seq<char>>,
    account: Option<Seq<char>>,
    inferred: Result<InferredScope, Error>,
    r: Result<String, Error>,
) -> bool {
    let both = service is Some && account is Some;
    let s = if both {
        service->0
    } else {
        inferred->Ok_0.service@
    };
    let a = if both {
        account->0
    } else {
        inferred->Ok_0.account@
    };
    if !both && inferred is Err {
        r == Err::<String, Error>(inferred->Err_0)
    } else {
        match r {
            Ok(path) => scoped_fault(s, a) is None && path@ == scoped_path(memex_dir, s, a),
            Err(Error::InvalidScope(m)) => scoped_fault(s, a) == Some(m@),
            Err(_) => false,
        }
    }
}

/// The archive of an ingest under `memex_dir`. Both flags decide alone.
/// Otherwise `inferred` is the scope on which the inputs agree.
pub fn resolve_ingest_archive_in(
    memex_dir: &str,
    service: Option<&str>,
    account: Option<&str>,
    inferred: Result<InferredScope, Error>,
) -> (r: Result<String, Error>)
    ensures
        resolves(memex_dir@, opt_str(service), opt_str(account), inferred, r),
{
    if let Some(s) = service {
        if let Some(a) = account {
            return scoped_archive_path(memex_dir, s, a);
        }
    }
    match inferred {
        Ok(scope) => scoped_archive_path(memex_dir, &scope.service, &scope.account),
        Err(e) => Err(e),
    }
}

/// The archive of an ingest under the memex directory of `home`.
pub fn resolve_ingest_archive(
    home: &str,
    service: Option<&str>,
    account: Option<&str>,
    inferred: Result<InferredScope, Error>,
) -> (r: Result<String, Error>)
    ensures
        resolves(joined(home@, "memex"@), opt_str(service), opt_str(account), inferred, r),
{
    resolve_ingest_archive_in(&default_memex_dir(home), service, account, inferred)
}

/// What an ingest does under its flags.
#[derive(Clone, Debug, PartialEq, Eq)]
pub enum IngestPlan {
    /// Scan the home directory.
    Home,
    /// Write the inputs to this archive.
    Output(String),
    /// Write the inputs to the archive that flags and inputs give.
    Infer,
}

/// What an ingest does under its flags. A home scan takes none of them.
pub fn ingest_from_flags(
    output: Option<&str>,
    service: Option<&str>,
    account: Option<&str>,
    inputs: &Vec<String>,
) -> (r: Result<IngestPlan, Error>)
    ensures
        match r {
            Ok(IngestPlan::Home) => inputs@.len() == 0 && output is None && service is None
                && account is None,
            Ok(IngestPlan::Output(p)) => inputs@.len() > 0 && output is Some && p@ == output->0@,
            Ok(IngestPlan::Infer) => inputs@.len() > 0 && output is None,
            Err(e) => inputs@.len() == 0 && if output is Some {
                says(e, "home scan writes many archives; do not pass -o"@)
            } else {
                (service is Some || account is Some) && says(
                    e,
                    "home scan always infers per source; pass explicit paths to force those flags"@,
                )
            },
        },
{
    if inputs.len() == 0 {
        if output.is_some() {
            return Err(
                Error::Ingest("home scan writes many archives; do not pass -o".to_owned()),
            );
        }
        if service.is_some() || account.is_some() {
            return Err(
                Error::Ingest(
                    "home scan always infers per source; pass explicit paths to force those flags".to_owned(),
                ),
            );
        }
        return Ok(IngestPlan::Home);
    }
    match output {
        Some(p) => Ok(IngestPlan::Output(p.to_owned())),
        None => Ok(IngestPlan::Infer),
    }
}

/// Each kind of source has its own folder in the memex directory.
pub proof fn law_services()
    ensures
        shape_service(Shape::ChatGpt) == "agents/chatgpt"@,
        shape_service(Shape::BackendFile) == "agents/grok"@,
        shape_service(Shape::GrokTree) == "agents/grok"@,
        shape_service(Shape::SessionSqlite) == "agents/grok-oss"@,
        shape_service(Shape::Reports) == "agents/reports"@,
        shape_service(Shape::Obsidian) == "notes/obsidian"@,
        shape_service(Shape::Markdown) == "notes/markdown"@,
        shape_service(Shape::Telegram) == "social/telegram"@,
        shape_service(Shape::Facebook) == "social/meta"@,
        shape_service(Shape::Twitter) == "social/x"@,
        shape_of_zip(ZipKind::ChatGpt) == Shape::ChatGpt,
        shape_of_zip(ZipKind::Facebook) == Shape::Facebook,
        shape_of_zip(ZipKind::Twitter) == Shape::Twitter,
        shape_of_zip(ZipKind::Grok) == Shape::GrokTree,
        shape_of_zip(ZipKind::Telegram) == Shape::Telegram,
{
}

/// Every shape is tried once. Markdown, which fits the most, is tried last,
/// and a zip of another kind after ChatGPT.
pub proof fn law_every_shape_is_tried(shape: Shape)
    ensures
        shape_order().len() == 11,
        shape_order().no_duplicates(),
        shape_order().contains(shape),
        shape_order()[10] == Shape::Markdown,
        shape_order()[0] == Shape::ChatGpt,
        shape_order().index_of(Shape::Obsidian) < shape_order().index_of(Shape::Markdown),
{
    let all = shape_order();
    assert(all[0] == Shape::ChatGpt && all[1] == Shape::Zip && all[2] == Shape::Facebook && all[3]
        == Shape::Twitter && all[4] == Shape::BackendFile && all[5] == Shape::Telegram && all[6]
        == Shape::GrokTree && all[7] == Shape::Obsidian && all[8] == Shape::SessionSqlite && all[9]
        == Shape::Reports && all[10] == Shape::Markdown);
    assert(all.no_duplicates());
    all.index_of_first_ensures(Shape::Obsidian);
}

/// The account of notes is the name of their folder: that of a vault itself,
/// or the one that holds a single file.
pub proof fn law_notes_account(dir: Seq<char>, folder: Seq<char>, name: Seq<char>, f: ScopeFacts)
    requires
        plain_name(folder),
        plain_name(name),
    ensures
        !f.is_file ==> shape_account(Shape::Obsidian, joined(dir, folder), f) == Some(folder),
        !f.is_file ==> shape_account(Shape::Markdown, joined(dir, folder), f) == Some(folder),
        f.is_file ==> shape_account(Shape::Markdown, joined(joined(dir, folder), name), f) == Some(
            folder,
        ),
{
    law_joined_name(dir, folder);
    law_joined_name(joined(dir, folder), name);
}

/// The account of an export is the name that it gives, where it is one, else
/// the user of the process. A Grok export must name its account.
pub proof fn law_export_account(path: Seq<char>, f: ScopeFacts, own: Seq<char>, user: Seq<char>)
    requires
        own.len() > 0,
        user.len() > 0,
        opt_view(f.user) == Some(user),
    ensures
        opt_view(f.name) == Some(own) ==> shape_account(Shape::Telegram, path, f) == Some(own),
        opt_view(f.name) is None ==> shape_account(Shape::Telegram, path, f) == Some(user),
        opt_view(f.name) == Some(own) && !own.contains('@') ==> shape_account(
            Shape::Twitter,
            path,
            f,
        ) == Some(own),
        opt_view(f.name) == Some(own) && own.contains('@') ==> shape_account(Shape::Twitter, path, f)
            == Some(user),
        shape_account(Shape::ChatGpt, path, f) == Some(user),
        shape_account(Shape::SessionSqlite, path, f) == Some(user),
        shape_account(Shape::Reports, path, f) == Some(user),
        opt_view(f.name) == Some(own) ==> shape_account(Shape::GrokTree, path, f) == Some(own)
            && shape_account(Shape::BackendFile, path, f) == Some(own),
        opt_view(f.name) is None ==> shape_account(Shape::GrokTree, path, f) is None
            && shape_account(Shape::BackendFile, path, f) is None,
        shape_account(Shape::Zip, path, f) is None,
{
}

/// The user of the process is `USER`, else `USERNAME`. Empty values are as
/// none.
pub proof fn law_process_user(a: Seq<char>, b: Seq<char>)
    requires
        a.len() > 0,
        b.len() > 0,
    ensures
        user_account(Some(a), Some(b)) == Some(a),
        user_account(None, Some(b)) == Some(b),
        user_account(Some(Seq::empty()), Some(b)) == Some(b),
        user_account(None, None) is None,
        user_account(Some(Seq::empty()), None) is None,
{
}

/// What a path is told by: its own name, or what was found in it.
pub proof fn law_shapes_by_name(dir: Seq<char>, name: Seq<char>, f: ShapeFacts)
    requires
        plain_name(name),
        f.is_file && !f.is_dir,
    ensures
        ({
            let path = joined(dir, name);
            &&& shape_fits(Shape::BackendFile, path, f) <==> name == "prod-grok-backend.json"@
            &&& shape_fits(Shape::Zip, path, f) <==> name_extension(name) is Some && same_ascii(
                name_extension(name)->0,
                "zip"@,
            )
            &&& shape_fits(Shape::Markdown, path, f) <==> name_extension(name) is Some
                && same_ascii(name_extension(name)->0, "md"@)
            &&& shape_fits(Shape::SessionSqlite, path, f) <==> !same_ascii(name, "grok_oss.db"@) && (
            same_ascii(name, "session_search.sqlite"@) || f.session_docs)
            &&& f.telegram ==> shape_fits(Shape::Telegram, path, f)
            &&& !shape_fits(Shape::Facebook, path, f)
            &&& !shape_fits(Shape::Twitter, path, f)
            &&& !shape_fits(Shape::Obsidian, path, f)
            &&& !shape_fits(Shape::Reports, path, f)
            &&& shape_fits(Shape::GrokTree, path, f) == f.backends
        }),
{
    law_joined_name(dir, name);
}

/// A folder is told by what was found in it.
pub proof fn law_shapes_of_folders(path: Seq<char>, f: ShapeFacts)
    requires
        f.is_dir && !f.is_file,
    ensures
        shape_fits(Shape::ChatGpt, path, f) == f.chatgpt,
        shape_fits(Shape::Facebook, path, f) == f.facebook,
        shape_fits(Shape::Twitter, path, f) == f.twitter,
        shape_fits(Shape::Obsidian, path, f) == f.obsidian,
        shape_fits(Shape::Markdown, path, f) == f.markdown,
        shape_fits(Shape::GrokTree, path, f) == f.backends,
        f.telegram ==> shape_fits(Shape::Telegram, path, f),
        !shape_fits(Shape::Zip, path, f),
        !shape_fits(Shape::BackendFile, path, f),
        !shape_fits(Shape::SessionSqlite, path, f),
{
}

/// Flags win over what was inferred. Where nothing was, an account flag is
/// enough for a Grok export.
pub proof fn law_scope_flags_win(x: InputScope, s: Seq<char>, a: Seq<char>)
    ensures
        x.inferred is Ok ==> flagged(x, Some(s), Some(a)) == Some((s, a)),
        x.inferred is Ok ==> flagged(x, Some(s), None) == Some((s, x.inferred->Ok_0.account@)),
        x.inferred is Ok ==> flagged(x, None, Some(a)) == Some((x.inferred->Ok_0.service@, a)),
        x.inferred is Ok ==> flagged(x, None, None) == Some(
            (x.inferred->Ok_0.service@, x.inferred->Ok_0.account@),
        ),
        x.inferred is Err && x.grok_shaped ==> flagged(x, Some(s), Some(a)) == Some((s, a)),
        x.inferred is Err && x.grok_shaped ==> flagged(x, None, Some(a)) == Some(
            ("agents/grok"@, a),
        ),
        x.inferred is Err ==> flagged(x, Some(s), None) is None && flagged(x, None, None) is None,
        x.inferred is Err && !x.grok_shaped ==> flagged(x, Some(s), Some(a)) is None,
{
}

} // verus!
