//! Which service and account an input belongs to. What is on disk is asked
//! of the caller, one question at a time.
use vstd::prelude::*;

use crate::discover::{
    answers, asks_for_sessions, backends_at, chained, discover_sources,
    find_grok_backends, sources_at, told, Disk, Entry,
};
use crate::infer::{
    agreed, fits_shape, infer_account_from_backends, infer_ingest_scope, infer_order, opt_views,
    result_view, scope_result, shape_account, shape_error, shape_fits, shape_of_zip, shape_order,
    shape_service, zip_shape, InferredScope, ScopeFacts, Shape, ShapeFacts,
};
use crate::cards::{name_or_empty, name_or_empty_of};
use crate::config::skips;
use crate::names::{
    conversations_json, is_conversations_json_name, is_user_json_name, user_json,
    RESULT_FILE_NAME,
};
use crate::paths::{join_path, joined, opt_str, opt_view};
use crate::scan::{session_sqlite_by_name, source_view, IngestSource, NodeKind, SourceKind};
use crate::search::copied_opt;
use crate::sources::{
    infer_ingest_scope_from_discovered, nested_agree, own_or_nested,
};
use crate::text::views;
use crate::walk::{Fact, Scan};
use crate::zip::{is_zip_path, zip_path, ZipKind};
use crate::{Error, GROK_SERVICE};

verus! {

/// What the caller reads out of an input.
pub struct Names<Z, A, O> {
    /// The kind of a zip. `None`: no known export is in it.
    pub zip: Z,
    /// The X username in the auth file beside a backend file.
    pub auth: A,
    /// The name that an export gives itself.
    pub own: O,
    /// The variable `USER`.
    pub user: Option<String>,
    /// The variable `USERNAME`.
    pub username: Option<String>,
}

/// `r` is what a zip was said to hold.
pub open spec fn zip_said<Z: Fn(&str) -> Option<ZipKind>>(
    zip: Z,
    path: Seq<char>,
    r: Option<ZipKind>,
) -> bool {
    exists|p: &str| p@ == path && #[trigger] call_ensures(zip, (p,), r)
}

/// `r` is the name that was said to stand beside a backend file.
pub open spec fn auth_said<A: Fn(&str) -> Result<Option<String>, Error>>(
    auth: A,
    path: Seq<char>,
    r: Result<Option<String>, Error>,
) -> bool {
    exists|p: &str| p@ == path && #[trigger] call_ensures(auth, (p,), r)
}

/// `r` is the name that an export was said to give itself.
pub open spec fn own_said<O: Fn(Shape, &str) -> Result<Option<String>, Error>>(
    own: O,
    shape: Shape,
    path: Seq<char>,
    r: Result<Option<String>, Error>,
) -> bool {
    exists|p: &str| p@ == path && #[trigger] call_ensures(own, (shape, p), r)
}

/// The names can be asked for.
pub open spec fn names_answer<
    Z: Fn(&str) -> Option<ZipKind>,
    A: Fn(&str) -> Result<Option<String>, Error>,
    O: Fn(Shape, &str) -> Result<Option<String>, Error>,
>(names: Names<Z, A, O>) -> bool {
    &&& forall|p: &str| #[trigger] call_requires(names.zip, (p,))
    &&& forall|p: &str| #[trigger] call_requires(names.auth, (p,))
    &&& forall|shape: Shape, p: &str| #[trigger] call_requires(names.own, (shape, p))
}

/// What is known of an input before any question about its shape.
pub open spec fn bare_facts(is_file: bool, is_dir: bool) -> ShapeFacts {
    ShapeFacts {
        is_file,
        is_dir,
        zip: None,
        chatgpt: false,
        in_chatgpt: false,
        facebook: false,
        twitter: false,
        telegram: false,
        backends: false,
        obsidian: false,
        session_docs: false,
        markdown: false,
    }
}

/// The path that is asked for a Telegram document: the input, or the
/// document in it.
pub open spec fn telegram_path(input: Seq<char>, is_file: bool) -> Seq<char> {
    if is_file {
        input
    } else {
        joined(input, RESULT_FILE_NAME@)
    }
}

/// The facts with the answer to the one question that a shape asks.
pub open spec fn with_answer(shape: Shape, f: ShapeFacts, yes: bool) -> ShapeFacts {
    match shape {
        Shape::ChatGpt => if f.is_file {
            ShapeFacts { in_chatgpt: yes, ..f }
        } else {
            ShapeFacts { chatgpt: yes, ..f }
        },
        Shape::Facebook => ShapeFacts { facebook: yes, ..f },
        Shape::Twitter => ShapeFacts { twitter: yes, ..f },
        Shape::Telegram => ShapeFacts { telegram: yes, ..f },
        Shape::GrokTree => ShapeFacts { backends: yes, ..f },
        Shape::Obsidian => ShapeFacts { obsidian: yes, ..f },
        Shape::SessionSqlite => ShapeFacts { session_docs: yes, ..f },
        Shape::Markdown => ShapeFacts { markdown: yes, ..f },
        Shape::Zip | Shape::BackendFile | Shape::Reports => f,
    }
}

/// The name is one of a ChatGPT export.
pub open spec fn chatgpt_named(path: Seq<char>) -> bool {
    conversations_json(name_or_empty(path)) || user_json(name_or_empty(path))
}

/// The question that a shape asks about an input, and about which path.
/// `None`: it needs no answer.
pub open spec fn shape_question(shape: Shape, input: Seq<char>, f: ShapeFacts) -> Option<
    (Fact, Seq<char>),
> {
    match shape {
        Shape::ChatGpt => if f.is_file {
            if chatgpt_named(input) {
                Some((Fact::InChatGpt, input))
            } else {
                None
            }
        } else if f.is_dir {
            Some((Fact::ChatGpt, input))
        } else {
            None
        },
        Shape::Facebook if f.is_dir => Some((Fact::Facebook, input)),
        Shape::Twitter if f.is_dir => Some((Fact::Twitter, input)),
        Shape::Telegram if f.is_file || f.is_dir => Some(
            (Fact::Telegram, telegram_path(input, f.is_file)),
        ),
        Shape::Obsidian if f.is_dir => Some((Fact::Obsidian, input)),
        Shape::SessionSqlite if f.is_file && asks_for_sessions(input) => Some(
            (Fact::SessionIndex, input),
        ),
        Shape::Markdown if f.is_dir => Some((Fact::Markdown, input)),
        _ => None,
    }
}

/// `r` holds the answer to the question that a shape asks.
pub open spec fn answer_said<I: Fn(Fact, &str) -> Result<bool, Error>>(
    is: I,
    fact: Fact,
    path: Seq<char>,
    shape: Shape,
    f: ShapeFacts,
    r: Result<ShapeFacts, Error>,
) -> bool {
    exists|yes: Result<bool, Error>| #[trigger]
        told(is, fact, path, yes) && r == (match yes {
            Ok(b) => Ok(with_answer(shape, f, b)),
            Err(e) => Err(e),
        })
}

/// `r` is what was said of an input for a shape.
pub open spec fn shape_asked<
    N: Fn(&str) -> Result<NodeKind, Error>,
    E: Fn(&str) -> Result<Vec<Entry>, Error>,
    I: Fn(Fact, &str) -> Result<bool, Error>,
    Z: Fn(&str) -> Option<ZipKind>,
    A: Fn(&str) -> Result<Option<String>, Error>,
    O: Fn(Shape, &str) -> Result<Option<String>, Error>,
>(
    disk: Disk<N, E, I>,
    s: Scan<'_>,
    names: Names<Z, A, O>,
    shape: Shape,
    input: Seq<char>,
    f: ShapeFacts,
    r: Result<ShapeFacts, Error>,
) -> bool {
    if shape == Shape::ChatGpt && f.is_file && zip_path(input) {
        exists|kind: Option<ZipKind>| #[trigger]
            zip_said(names.zip, input, kind) && r == Ok::<ShapeFacts, Error>(
                ShapeFacts { zip: kind, ..f },
            )
    } else if shape == Shape::GrokTree {
        exists|found: Result<Seq<Seq<char>>, Error>| #[trigger]
            backends_at(disk, s, input, found) && r == (match found {
                Ok(v) => Ok(with_answer(shape, f, v.len() > 0)),
                Err(e) => Err(e),
            })
    } else {
        match shape_question(shape, input, f) {
            Some((fact, path)) => answer_said(disk.is, fact, path, shape, f, r),
            None => r == Ok::<ShapeFacts, Error>(f),
        }
    }
}

fn answered(shape: Shape, f: ShapeFacts, yes: bool) -> (r: ShapeFacts)
    ensures
        r == with_answer(shape, f, yes),
{
    let mut r = f;
    match shape {
        Shape::ChatGpt => if f.is_file {
            r.in_chatgpt = yes;
        } else {
            r.chatgpt = yes;
        },
        Shape::Facebook => {
            r.facebook = yes;
        },
        Shape::Twitter => {
            r.twitter = yes;
        },
        Shape::Telegram => {
            r.telegram = yes;
        },
        Shape::GrokTree => {
            r.backends = yes;
        },
        Shape::Obsidian => {
            r.obsidian = yes;
        },
        Shape::SessionSqlite => {
            r.session_docs = yes;
        },
        Shape::Markdown => {
            r.markdown = yes;
        },
        Shape::Zip | Shape::BackendFile | Shape::Reports => {},
    }
    r
}

fn question_of(shape: Shape, input: &str, f: ShapeFacts) -> (r: Option<(Fact, String)>)
    ensures
        match r {
            Some((fact, path)) => shape_question(shape, input@, f) == Some((fact, path@)),
            None => shape_question(shape, input@, f) is None,
        },
{
    let fact = match shape {
        Shape::ChatGpt => if f.is_file {
            let name = name_or_empty_of(input);
            if is_conversations_json_name(&name) || is_user_json_name(&name) {
                Fact::InChatGpt
            } else {
                return None;
            }
        } else if f.is_dir {
            Fact::ChatGpt
        } else {
            return None;
        },
        Shape::Facebook => if f.is_dir {
            Fact::Facebook
        } else {
            return None;
        },
        Shape::Twitter => if f.is_dir {
            Fact::Twitter
        } else {
            return None;
        },
        Shape::Telegram => if f.is_file {
            Fact::Telegram
        } else if f.is_dir {
            return Some((Fact::Telegram, join_path(input, RESULT_FILE_NAME)));
        } else {
            return None;
        },
        Shape::Obsidian => if f.is_dir {
            Fact::Obsidian
        } else {
            return None;
        },
        Shape::SessionSqlite => if f.is_file && !is_zip_path(input) && session_sqlite_by_name(
            input,
        ).is_none() {
            Fact::SessionIndex
        } else {
            return None;
        },
        Shape::Markdown => if f.is_dir {
            Fact::Markdown
        } else {
            return None;
        },
        Shape::Zip | Shape::BackendFile | Shape::Reports | Shape::GrokTree => {
            return None;
        },
    };
    Some((fact, input.to_owned()))
}

fn ask_shape<
    N: Fn(&str) -> Result<NodeKind, Error>,
    E: Fn(&str) -> Result<Vec<Entry>, Error>,
    I: Fn(Fact, &str) -> Result<bool, Error>,
    Z: Fn(&str) -> Option<ZipKind>,
    A: Fn(&str) -> Result<Option<String>, Error>,
    O: Fn(Shape, &str) -> Result<Option<String>, Error>,
>(
    disk: &Disk<N, E, I>,
    s: Scan<'_>,
    names: &Names<Z, A, O>,
    shape: Shape,
    input: &str,
    f: ShapeFacts,
) -> (r: Result<ShapeFacts, Error>)
    requires
        answers(*disk),
        names_answer(*names),
    ensures
        shape_asked(*disk, s, *names, shape, input@, f, r),
{
    if shape == Shape::ChatGpt && f.is_file && is_zip_path(input) {
        let kind = (names.zip)(input);
        assert(zip_said(names.zip, input@, kind));
        let mut r = f;
        r.zip = kind;
        return Ok(r);
    }
    if shape == Shape::GrokTree {
        let found = find_grok_backends(disk, s, input);
        return match found {
            Ok(v) => {
                assert(views(v@).len() == v@.len());
                Ok(answered(shape, f, v.len() > 0))
            },
            Err(e) => Err(e),
        };
    }
    match question_of(shape, input, f) {
        Some((fact, path)) => {
            let yes = (disk.is)(fact, &path);
            assert(told(disk.is, fact, path@, yes));
            let r = match yes {
                Ok(b) => Ok(answered(shape, f, b)),
                Err(e) => Err(e),
            };
            assert(answer_said(disk.is, fact, path@, shape, f, r));
            r
        },
        None => Ok(f),
    }
}

/// `r` holds the names in the auth files beside backend files, in order.
pub open spec fn auths_said<A: Fn(&str) -> Result<Option<String>, Error>>(
    auth: A,
    backends: Seq<Seq<char>>,
    r: Result<Seq<Option<Seq<char>>>, Error>,
) -> bool
    decreases backends.len(),
{
    if backends.len() == 0 {
        r == Ok::<Seq<Option<Seq<char>>>, Error>(Seq::empty())
    } else {
        exists|
            a: Result<Seq<Option<Seq<char>>>, Error>,
            b: Result<Seq<Option<Seq<char>>>, Error>,
        | #[trigger]
            chained(a, b, r) && auths_said(auth, backends.drop_last(), a) && (a is Ok
                ==> one_auth(auth, backends.last(), b))
    }
}

/// `r` holds the name beside one backend file.
pub open spec fn one_auth<A: Fn(&str) -> Result<Option<String>, Error>>(
    auth: A,
    backend: Seq<char>,
    r: Result<Seq<Option<Seq<char>>>, Error>,
) -> bool {
    exists|name: Result<Option<String>, Error>| #[trigger]
        auth_said(auth, backend, name) && r == (match name {
            Ok(n) => Ok(seq![opt_view(n)]),
            Err(e) => Err(e),
        })
}

proof fn lemma_auths_stop<A: Fn(&str) -> Result<Option<String>, Error>>(
    auth: A,
    backends: Seq<Seq<char>>,
    k: int,
    e: Error,
)
    requires
        0 <= k <= backends.len(),
        auths_said(auth, backends.take(k), Err(e)),
    ensures
        auths_said(auth, backends, Err(e)),
    decreases backends.len(),
{
    if k == backends.len() {
        assert(backends.take(k) =~= backends);
    } else {
        assert(backends.drop_last().take(k) =~= backends.take(k));
        lemma_auths_stop(auth, backends.drop_last(), k, e);
        let r: Result<Seq<Option<Seq<char>>>, Error> = Err(e);
        assert(chained(r, r, r));
    }
}

fn ask_auths<
    Z: Fn(&str) -> Option<ZipKind>,
    A: Fn(&str) -> Result<Option<String>, Error>,
    O: Fn(Shape, &str) -> Result<Option<String>, Error>,
>(names: &Names<Z, A, O>, backends: &Vec<String>) -> (r: Result<Vec<Option<String>>, Error>)
    requires
        names_answer(*names),
    ensures
        auths_said(
            names.auth,
            views(backends@),
            match r {
                Ok(v) => Ok(opt_views(v@)),
                Err(e) => Err(e),
            },
        ),
{
    let ghost all = views(backends@);
    let mut out: Vec<Option<String>> = Vec::new();
    let mut i: usize = 0;
    proof {
        assert(opt_views(out@) =~= Seq::empty());
        assert(all.take(0) =~= Seq::empty());
    }
    while i < backends.len()
        invariant
            i <= backends@.len(),
            all == views(backends@),
            names_answer(*names),
            auths_said(names.auth, all.take(i as int), Ok(opt_views(out@))),
        decreases backends.len() - i,
    {
        let ghost held: Result<Seq<Option<Seq<char>>>, Error> = Ok(opt_views(out@));
        let name = (names.auth)(&backends[i]);
        proof {
            assert(auth_said(names.auth, all[i as int], name));
            assert(all.take(i + 1).drop_last() =~= all.take(i as int));
            assert(all.take(i + 1).last() == all[i as int]);
        }
        match name {
            Ok(n) => {
                let ghost one: Result<Seq<Option<Seq<char>>>, Error> = Ok(seq![opt_view(n)]);
                proof {
                    assert(one_auth(names.auth, all[i as int], one));
                }
                out.push(n);
                proof {
                    assert(opt_views(out@) =~= held->Ok_0 + one->Ok_0);
                    assert(chained(held, one, Ok(opt_views(out@))));
                }
            },
            Err(e) => {
                proof {
                    let r: Result<Seq<Option<Seq<char>>>, Error> = Err(e);
                    assert(one_auth(names.auth, all[i as int], r));
                    assert(chained(held, r, r));
                    assert(auths_said(names.auth, all.take(i + 1), r));
                    lemma_auths_stop(names.auth, all, i + 1, e);
                }
                return Err(e);
            },
        }
        i = i + 1;
    }
    assert(all.take(all.len() as int) =~= all);
    Ok(out)
}

/// `r` is the account on which the backend files of an input agree.
pub open spec fn backend_account<
    N: Fn(&str) -> Result<NodeKind, Error>,
    E: Fn(&str) -> Result<Vec<Entry>, Error>,
    I: Fn(Fact, &str) -> Result<bool, Error>,
    Z: Fn(&str) -> Option<ZipKind>,
    A: Fn(&str) -> Result<Option<String>, Error>,
    O: Fn(Shape, &str) -> Result<Option<String>, Error>,
>(
    disk: Disk<N, E, I>,
    s: Scan<'_>,
    names: Names<Z, A, O>,
    input: Seq<char>,
    r: Result<Seq<char>, Error>,
) -> bool {
    exists|found: Result<Seq<Seq<char>>, Error>| #[trigger]
        backends_at(disk, s, input, found) && match found {
            Ok(v) => auths_agree(names.auth, v, r),
            Err(e) => r == Err::<Seq<char>, Error>(e),
        }
}

/// `r` is the account on which the auth files beside backend files agree.
pub open spec fn auths_agree<A: Fn(&str) -> Result<Option<String>, Error>>(
    auth: A,
    backends: Seq<Seq<char>>,
    r: Result<Seq<char>, Error>,
) -> bool {
    exists|all: Result<Seq<Option<Seq<char>>>, Error>| #[trigger]
        auths_said(auth, backends, all) && match all {
            Ok(w) => agreed(w, r),
            Err(e) => r == Err::<Seq<char>, Error>(e),
        }
}

fn find_backend_account<
    N: Fn(&str) -> Result<NodeKind, Error>,
    E: Fn(&str) -> Result<Vec<Entry>, Error>,
    I: Fn(Fact, &str) -> Result<bool, Error>,
    Z: Fn(&str) -> Option<ZipKind>,
    A: Fn(&str) -> Result<Option<String>, Error>,
    O: Fn(Shape, &str) -> Result<Option<String>, Error>,
>(disk: &Disk<N, E, I>, s: Scan<'_>, names: &Names<Z, A, O>, input: &str) -> (r: Result<
    String,
    Error,
>)
    requires
        answers(*disk),
        names_answer(*names),
    ensures
        backend_account(*disk, s, *names, input@, result_view(r)),
{
    match find_grok_backends(disk, s, input) {
        Ok(found) => {
            let ghost paths = views(found@);
            assert(backends_at(*disk, s, input@, Ok(paths)));
            match ask_auths(names, &found) {
                Ok(all) => {
                    assert(auths_said(names.auth, paths, Ok(opt_views(all@))));
                    let r = infer_account_from_backends(&all);
                    assert(auths_agree(names.auth, paths, result_view(r)));
                    r
                },
                Err(e) => {
                    assert(auths_said(names.auth, paths, Err(e)));
                    assert(auths_agree(names.auth, paths, Err(e)));
                    Err(e)
                },
            }
        },
        Err(e) => {
            assert(backends_at(*disk, s, input@, Err(e)));
            Err(e)
        },
    }
}

/// `r` is the scope of an input of a known shape.
pub open spec fn is_scope(
    shape: Shape,
    path: Seq<char>,
    f: ScopeFacts,
    r: Result<InferredScope, Error>,
) -> bool {
    match r {
        Ok(x) => x.service@ == shape_service(shape) && shape_account(shape, path, f) == Some(
            x.account@,
        ),
        Err(e) => shape_account(shape, path, f) is None && shape_error(shape, e),
    }
}

/// `r` is the scope of an input of a known shape that gives itself `name`.
pub open spec fn scope_named<
    Z: Fn(&str) -> Option<ZipKind>,
    A: Fn(&str) -> Result<Option<String>, Error>,
    O: Fn(Shape, &str) -> Result<Option<String>, Error>,
>(
    names: Names<Z, A, O>,
    shape: Shape,
    input: Seq<char>,
    is_file: bool,
    name: Option<Seq<char>>,
    r: Result<InferredScope, Error>,
) -> bool {
    exists|f: ScopeFacts|
        f.is_file == is_file && opt_view(f.name) == name && opt_view(f.user) == opt_view(
            names.user,
        ) && opt_view(f.username) == opt_view(names.username) && #[trigger] is_scope(
            shape,
            input,
            f,
            r,
        )
}

fn scope_of_name<
    Z: Fn(&str) -> Option<ZipKind>,
    A: Fn(&str) -> Result<Option<String>, Error>,
    O: Fn(Shape, &str) -> Result<Option<String>, Error>,
>(
    names: &Names<Z, A, O>,
    shape: Shape,
    input: &str,
    is_file: bool,
    name: Option<String>,
) -> (r: Result<InferredScope, Error>)
    ensures
        scope_named(*names, shape, input@, is_file, opt_view(name), r),
{
    let f = ScopeFacts {
        is_file,
        name,
        user: copied_opt(&names.user),
        username: copied_opt(&names.username),
    };
    let r = infer_ingest_scope(shape, input, &f);
    assert(is_scope(shape, input@, f, r));
    r
}

/// `r` is the scope of an input that has a shape.
pub open spec fn scope_of_shape<
    N: Fn(&str) -> Result<NodeKind, Error>,
    E: Fn(&str) -> Result<Vec<Entry>, Error>,
    I: Fn(Fact, &str) -> Result<bool, Error>,
    Z: Fn(&str) -> Option<ZipKind>,
    A: Fn(&str) -> Result<Option<String>, Error>,
    O: Fn(Shape, &str) -> Result<Option<String>, Error>,
>(
    disk: Disk<N, E, I>,
    s: Scan<'_>,
    names: Names<Z, A, O>,
    shape: Shape,
    input: Seq<char>,
    is_file: bool,
    r: Result<InferredScope, Error>,
) -> bool {
    match shape {
        Shape::Zip => exists|kind: Option<ZipKind>| #[trigger]
            zip_said(names.zip, input, kind) && match kind {
                Some(k) => match k {
                    ZipKind::ChatGpt | ZipKind::Facebook => scope_named(
                        names,
                        shape_of_zip(k),
                        input,
                        is_file,
                        None,
                        r,
                    ),
                    _ => scope_by_own_name(names, shape_of_zip(k), input, is_file, r),
                },
                None => r == Err::<InferredScope, Error>(Error::NotGrokExport),
            },
        Shape::BackendFile | Shape::GrokTree => exists|account: Result<Seq<char>, Error>|
         #[trigger]
            backend_account(disk, s, names, input, account) && match account {
                Ok(name) => scope_named(names, shape, input, is_file, Some(name), r),
                Err(e) => r == Err::<InferredScope, Error>(e),
            },
        Shape::Twitter | Shape::Telegram => scope_by_own_name(names, shape, input, is_file, r),
        _ => scope_named(names, shape, input, is_file, None, r),
    }
}

/// `r` is the scope of an export that is asked for its own name.
pub open spec fn scope_by_own_name<
    Z: Fn(&str) -> Option<ZipKind>,
    A: Fn(&str) -> Result<Option<String>, Error>,
    O: Fn(Shape, &str) -> Result<Option<String>, Error>,
>(
    names: Names<Z, A, O>,
    shape: Shape,
    input: Seq<char>,
    is_file: bool,
    r: Result<InferredScope, Error>,
) -> bool {
    exists|own: Result<Option<String>, Error>| #[trigger]
        own_said(names.own, shape, input, own) && match own {
            Ok(name) => scope_named(names, shape, input, is_file, opt_view(name), r),
            Err(e) => r == Err::<InferredScope, Error>(e),
        }
}

fn ask_own_name<
    Z: Fn(&str) -> Option<ZipKind>,
    A: Fn(&str) -> Result<Option<String>, Error>,
    O: Fn(Shape, &str) -> Result<Option<String>, Error>,
>(names: &Names<Z, A, O>, shape: Shape, input: &str, is_file: bool) -> (r: Result<
    InferredScope,
    Error,
>)
    requires
        names_answer(*names),
    ensures
        scope_by_own_name(*names, shape, input@, is_file, r),
{
    let own = (names.own)(shape, input);
    assert(own_said(names.own, shape, input@, own));
    match own {
        Ok(name) => scope_of_name(names, shape, input, is_file, name),
        Err(e) => Err(e),
    }
}

fn infer_scope_of_shape<
    N: Fn(&str) -> Result<NodeKind, Error>,
    E: Fn(&str) -> Result<Vec<Entry>, Error>,
    I: Fn(Fact, &str) -> Result<bool, Error>,
    Z: Fn(&str) -> Option<ZipKind>,
    A: Fn(&str) -> Result<Option<String>, Error>,
    O: Fn(Shape, &str) -> Result<Option<String>, Error>,
>(
    disk: &Disk<N, E, I>,
    s: Scan<'_>,
    names: &Names<Z, A, O>,
    shape: Shape,
    input: &str,
    is_file: bool,
) -> (r: Result<InferredScope, Error>)
    requires
        answers(*disk),
        names_answer(*names),
    ensures
        scope_of_shape(*disk, s, *names, shape, input@, is_file, r),
{
    match shape {
        Shape::Zip => {
            let kind = (names.zip)(input);
            assert(zip_said(names.zip, input@, kind));
            match kind {
                Some(k) => match k {
                    ZipKind::ChatGpt | ZipKind::Facebook => scope_of_name(
                        names,
                        zip_shape(k),
                        input,
                        is_file,
                        None,
                    ),
                    _ => ask_own_name(names, zip_shape(k), input, is_file),
                },
                None => Err(Error::NotGrokExport),
            }
        },
        Shape::BackendFile | Shape::GrokTree => {
            let account = find_backend_account(disk, s, names, input);
            match account {
                Ok(name) => {
                    assert(backend_account(*disk, s, *names, input@, Ok(name@)));
                    scope_of_name(names, shape, input, is_file, Some(name))
                },
                Err(e) => {
                    assert(backend_account(*disk, s, *names, input@, Err(e)));
                    Err(e)
                },
            }
        },
        Shape::Twitter | Shape::Telegram => ask_own_name(names, shape, input, is_file),
        _ => scope_of_name(names, shape, input, is_file, None),
    }
}

/// `r` is the scope by the first of these shapes that an input has.
pub open spec fn first_fitting<
    N: Fn(&str) -> Result<NodeKind, Error>,
    E: Fn(&str) -> Result<Vec<Entry>, Error>,
    I: Fn(Fact, &str) -> Result<bool, Error>,
    Z: Fn(&str) -> Option<ZipKind>,
    A: Fn(&str) -> Result<Option<String>, Error>,
    O: Fn(Shape, &str) -> Result<Option<String>, Error>,
>(
    disk: Disk<N, E, I>,
    s: Scan<'_>,
    names: Names<Z, A, O>,
    shapes: Seq<Shape>,
    input: Seq<char>,
    f: ShapeFacts,
    r: Result<InferredScope, Error>,
) -> bool
    decreases shapes.len(),
{
    if shapes.len() == 0 {
        r == Err::<InferredScope, Error>(Error::NotGrokExport)
    } else {
        exists|facts: Result<ShapeFacts, Error>| #[trigger]
            shape_asked(disk, s, names, shapes[0], input, f, facts) && match facts {
                Ok(g) => if shape_fits(shapes[0], input, g) {
                    scope_of_shape(disk, s, names, shapes[0], input, f.is_file, r)
                } else {
                    first_fitting(disk, s, names, shapes.drop_first(), input, f, r)
                },
                Err(e) => r == Err::<InferredScope, Error>(e),
            }
    }
}

fn try_shapes<
    N: Fn(&str) -> Result<NodeKind, Error>,
    E: Fn(&str) -> Result<Vec<Entry>, Error>,
    I: Fn(Fact, &str) -> Result<bool, Error>,
    Z: Fn(&str) -> Option<ZipKind>,
    A: Fn(&str) -> Result<Option<String>, Error>,
    O: Fn(Shape, &str) -> Result<Option<String>, Error>,
>(
    disk: &Disk<N, E, I>,
    s: Scan<'_>,
    names: &Names<Z, A, O>,
    shapes: &Vec<Shape>,
    from: usize,
    input: &str,
    f: ShapeFacts,
) -> (r: Result<InferredScope, Error>)
    requires
        answers(*disk),
        names_answer(*names),
        from <= shapes@.len(),
    ensures
        first_fitting(*disk, s, *names, shapes@.skip(from as int), input@, f, r),
    decreases shapes.len() - from,
{
    let ghost rest = shapes@.skip(from as int);
    if from == shapes.len() {
        return Err(Error::NotGrokExport);
    }
    assert(rest[0] == shapes@[from as int]);
    assert(rest.drop_first() =~= shapes@.skip(from + 1));
    let shape = shapes[from];
    match ask_shape(disk, s, names, shape, input, f) {
        Ok(g) => if fits_shape(shape, input, g) {
            infer_scope_of_shape(disk, s, names, shape, input, f.is_file)
        } else {
            try_shapes(disk, s, names, shapes, from + 1, input, f)
        },
        Err(e) => Err(e),
    }
}

/// `r` is the scope that an input has by its own shape.
pub open spec fn scope_at<
    N: Fn(&str) -> Result<NodeKind, Error>,
    E: Fn(&str) -> Result<Vec<Entry>, Error>,
    I: Fn(Fact, &str) -> Result<bool, Error>,
    Z: Fn(&str) -> Option<ZipKind>,
    A: Fn(&str) -> Result<Option<String>, Error>,
    O: Fn(Shape, &str) -> Result<Option<String>, Error>,
>(
    disk: Disk<N, E, I>,
    s: Scan<'_>,
    names: Names<Z, A, O>,
    input: Seq<char>,
    r: Result<InferredScope, Error>,
) -> bool {
    exists|is_file: Result<bool, Error>| #[trigger]
        told(disk.is, Fact::File, input, is_file) && match is_file {
            Ok(file) => exists|is_dir: Result<bool, Error>| #[trigger]
                told(disk.is, Fact::Folder, input, is_dir) && match is_dir {
                    Ok(dir) => first_fitting(
                        disk,
                        s,
                        names,
                        shape_order(),
                        input,
                        bare_facts(file, dir),
                        r,
                    ),
                    Err(e) => r == Err::<InferredScope, Error>(e),
                },
            Err(e) => r == Err::<InferredScope, Error>(e),
        }
}

/// The scope that an input has by its own shape.
pub fn infer_ingest_scope_at_path<
    N: Fn(&str) -> Result<NodeKind, Error>,
    E: Fn(&str) -> Result<Vec<Entry>, Error>,
    I: Fn(Fact, &str) -> Result<bool, Error>,
    Z: Fn(&str) -> Option<ZipKind>,
    A: Fn(&str) -> Result<Option<String>, Error>,
    O: Fn(Shape, &str) -> Result<Option<String>, Error>,
>(disk: &Disk<N, E, I>, s: Scan<'_>, names: &Names<Z, A, O>, input: &str) -> (r: Result<
    InferredScope,
    Error,
>)
    requires
        answers(*disk),
        names_answer(*names),
    ensures
        scope_at(*disk, s, *names, input@, r),
{
    let is_file = (disk.is)(Fact::File, input);
    assert(told(disk.is, Fact::File, input@, is_file));
    let file = match is_file {
        Ok(file) => file,
        Err(e) => {
            return Err(e);
        },
    };
    let is_dir = (disk.is)(Fact::Folder, input);
    assert(told(disk.is, Fact::Folder, input@, is_dir));
    let dir = match is_dir {
        Ok(dir) => dir,
        Err(e) => {
            return Err(e);
        },
    };
    let f = ShapeFacts {
        is_file: file,
        is_dir: dir,
        zip: None,
        chatgpt: false,
        in_chatgpt: false,
        facebook: false,
        twitter: false,
        telegram: false,
        backends: false,
        obsidian: false,
        session_docs: false,
        markdown: false,
    };
    let shapes = infer_order();
    assert(shapes@.skip(0) =~= shapes@);
    try_shapes(disk, s, names, &shapes, 0, input, f)
}

/// `v` holds the scopes of the sources in a dump, in order. Sources on the
/// skip list do not count.
pub open spec fn nested_scopes<
    N: Fn(&str) -> Result<NodeKind, Error>,
    E: Fn(&str) -> Result<Vec<Entry>, Error>,
    I: Fn(Fact, &str) -> Result<bool, Error>,
    Z: Fn(&str) -> Option<ZipKind>,
    A: Fn(&str) -> Result<Option<String>, Error>,
    O: Fn(Shape, &str) -> Result<Option<String>, Error>,
>(
    disk: Disk<N, E, I>,
    s: Scan<'_>,
    names: Names<Z, A, O>,
    sources: Seq<(SourceKind, Seq<char>)>,
    v: Seq<Result<InferredScope, Error>>,
) -> bool
    decreases sources.len(),
{
    if sources.len() == 0 {
        v.len() == 0
    } else {
        let path = sources.last().1;
        if skips(*s.config, path, s.home@, opt_str(s.xdg)) {
            nested_scopes(disk, s, names, sources.drop_last(), v)
        } else {
            v.len() > 0 && nested_scopes(disk, s, names, sources.drop_last(), v.drop_last())
                && scope_at(disk, s, names, path, v.last())
        }
    }
}

fn infer_each<
    N: Fn(&str) -> Result<NodeKind, Error>,
    E: Fn(&str) -> Result<Vec<Entry>, Error>,
    I: Fn(Fact, &str) -> Result<bool, Error>,
    Z: Fn(&str) -> Option<ZipKind>,
    A: Fn(&str) -> Result<Option<String>, Error>,
    O: Fn(Shape, &str) -> Result<Option<String>, Error>,
>(
    disk: &Disk<N, E, I>,
    s: Scan<'_>,
    names: &Names<Z, A, O>,
    sources: &Vec<IngestSource>,
) -> (r: Vec<Result<InferredScope, Error>>)
    requires
        answers(*disk),
        names_answer(*names),
    ensures
        nested_scopes(
            *disk,
            s,
            *names,
            sources@.map_values(|x: IngestSource| source_view(x)),
            r@,
        ),
{
    let ghost all = sources@.map_values(|x: IngestSource| source_view(x));
    let mut out: Vec<Result<InferredScope, Error>> = Vec::new();
    let mut i: usize = 0;
    assert(all.take(0) =~= Seq::empty());
    while i < sources.len()
        invariant
            i <= sources@.len(),
            all == sources@.map_values(|x: IngestSource| source_view(x)),
            answers(*disk),
            names_answer(*names),
            nested_scopes(*disk, s, *names, all.take(i as int), out@),
        decreases sources.len() - i,
    {
        let path = &sources[i].path;
        proof {
            assert(all.take(i + 1).drop_last() =~= all.take(i as int));
            assert(all.take(i + 1).last() == source_view(sources@[i as int]));
        }
        if !s.config.skips_directory(path, s.home, s.xdg) {
            let scope = infer_ingest_scope_at_path(disk, s, names, path);
            let ghost held = out@;
            out.push(scope);
            assert(out@.drop_last() =~= held);
        }
        i = i + 1;
    }
    assert(all.take(all.len() as int) =~= all);
    out
}

/// `r` is the scope on which the sources in a dump agree.
pub open spec fn discovered_scope<
    N: Fn(&str) -> Result<NodeKind, Error>,
    E: Fn(&str) -> Result<Vec<Entry>, Error>,
    I: Fn(Fact, &str) -> Result<bool, Error>,
    Z: Fn(&str) -> Option<ZipKind>,
    A: Fn(&str) -> Result<Option<String>, Error>,
    O: Fn(Shape, &str) -> Result<Option<String>, Error>,
>(
    disk: Disk<N, E, I>,
    s: Scan<'_>,
    names: Names<Z, A, O>,
    input: Seq<char>,
    parent: Seq<char>,
    r: Result<InferredScope, Error>,
) -> bool {
    exists|found: Result<Seq<(SourceKind, Seq<char>)>, Error>| #[trigger]
        sources_at(disk, s, input, parent, found) && match found {
            Ok(v) => scopes_agree(disk, s, names, v, r),
            Err(e) => r == Err::<InferredScope, Error>(e),
        }
}

/// `r` is the scope on which these sources agree.
pub open spec fn scopes_agree<
    N: Fn(&str) -> Result<NodeKind, Error>,
    E: Fn(&str) -> Result<Vec<Entry>, Error>,
    I: Fn(Fact, &str) -> Result<bool, Error>,
    Z: Fn(&str) -> Option<ZipKind>,
    A: Fn(&str) -> Result<Option<String>, Error>,
    O: Fn(Shape, &str) -> Result<Option<String>, Error>,
>(
    disk: Disk<N, E, I>,
    s: Scan<'_>,
    names: Names<Z, A, O>,
    sources: Seq<(SourceKind, Seq<char>)>,
    r: Result<InferredScope, Error>,
) -> bool {
    exists|all: Seq<Result<InferredScope, Error>>| #[trigger]
        nested_scopes(disk, s, names, sources, all) && nested_agree(all, scope_result(r))
}

/// `r` is the scope of an input: its own shape decides, and only where it has
/// none do the sources in it.
pub open spec fn scope_in<
    N: Fn(&str) -> Result<NodeKind, Error>,
    E: Fn(&str) -> Result<Vec<Entry>, Error>,
    I: Fn(Fact, &str) -> Result<bool, Error>,
    Z: Fn(&str) -> Option<ZipKind>,
    A: Fn(&str) -> Result<Option<String>, Error>,
    O: Fn(Shape, &str) -> Result<Option<String>, Error>,
>(
    disk: Disk<N, E, I>,
    s: Scan<'_>,
    names: Names<Z, A, O>,
    input: Seq<char>,
    parent: Seq<char>,
    r: Result<InferredScope, Error>,
) -> bool {
    exists|own: Result<InferredScope, Error>| #[trigger]
        scope_at(disk, s, names, input, own) && if own == Err::<InferredScope, Error>(
            Error::NotGrokExport,
        ) {
            discovered_scope(disk, s, names, input, parent, r)
        } else {
            r == own
        }
}

/// The scope of an input. `parent` is the folder that it stands in.
pub fn infer_ingest_scope_in<
    N: Fn(&str) -> Result<NodeKind, Error>,
    E: Fn(&str) -> Result<Vec<Entry>, Error>,
    I: Fn(Fact, &str) -> Result<bool, Error>,
    Z: Fn(&str) -> Option<ZipKind>,
    A: Fn(&str) -> Result<Option<String>, Error>,
    O: Fn(Shape, &str) -> Result<Option<String>, Error>,
>(
    disk: &Disk<N, E, I>,
    s: Scan<'_>,
    names: &Names<Z, A, O>,
    input: &str,
    parent: &str,
) -> (r: Result<InferredScope, Error>)
    requires
        answers(*disk),
        names_answer(*names),
    ensures
        scope_in(*disk, s, *names, input@, parent@, r),
{
    let own = infer_ingest_scope_at_path(disk, s, names, input);
    let ghost said = own;
    assert(scope_at(*disk, s, *names, input@, said));
    if let Some(decided) = own_or_nested(own) {
        return decided;
    }
    match discover_sources(disk, s, input, parent) {
        Ok(sources) => {
            let ghost found = sources@.map_values(|x: IngestSource| source_view(x));
            assert(sources_at(*disk, s, input@, parent@, Ok(found)));
            let all = infer_each(disk, s, names, &sources);
            let ghost each = all@;
            let r = infer_ingest_scope_from_discovered(all);
            assert(nested_scopes(*disk, s, *names, found, each));
            assert(scopes_agree(*disk, s, *names, found, r));
            assert(discovered_scope(*disk, s, *names, input@, parent@, r));
            r
        },
        Err(e) => {
            assert(sources_at(*disk, s, input@, parent@, Err(e)));
            Err(e)
        },
    }
}

/// The scope of an official Grok export, from the X username beside its
/// backend files.
pub fn infer_grok_export_scope<
    N: Fn(&str) -> Result<NodeKind, Error>,
    E: Fn(&str) -> Result<Vec<Entry>, Error>,
    I: Fn(Fact, &str) -> Result<bool, Error>,
    Z: Fn(&str) -> Option<ZipKind>,
    A: Fn(&str) -> Result<Option<String>, Error>,
    O: Fn(Shape, &str) -> Result<Option<String>, Error>,
>(disk: &Disk<N, E, I>, s: Scan<'_>, names: &Names<Z, A, O>, input: &str) -> (r: Result<
    InferredScope,
    Error,
>)
    requires
        answers(*disk),
        names_answer(*names),
    ensures
        match r {
            Ok(x) => x.service@ == GROK_SERVICE@ && backend_account(
                *disk,
                s,
                *names,
                input@,
                Ok(x.account@),
            ),
            Err(e) => backend_account(*disk, s, *names, input@, Err(e)),
        },
{
    let account = find_backend_account(disk, s, names, input);
    match account {
        Ok(account) => {
            assert(backend_account(*disk, s, *names, input@, Ok(account@)));
            Ok(InferredScope { service: GROK_SERVICE.to_owned(), account })
        },
        Err(e) => {
            assert(backend_account(*disk, s, *names, input@, Err(e)));
            Err(e)
        },
    }
}

/// A folder is asked what it may be, and what is said of it decides whether it
/// fits.
pub proof fn law_a_folder_is_what_it_is_said_to_be(path: Seq<char>, yes: bool)
    ensures
        ({
            let f = bare_facts(false, true);
            &&& shape_question(Shape::ChatGpt, path, f) == Some((Fact::ChatGpt, path))
            &&& shape_question(Shape::Facebook, path, f) == Some((Fact::Facebook, path))
            &&& shape_question(Shape::Twitter, path, f) == Some((Fact::Twitter, path))
            &&& shape_question(Shape::Obsidian, path, f) == Some((Fact::Obsidian, path))
            &&& shape_question(Shape::Markdown, path, f) == Some((Fact::Markdown, path))
            &&& shape_question(Shape::Telegram, path, f) == Some(
                (Fact::Telegram, joined(path, "result.json"@)),
            )
            &&& shape_fits(Shape::ChatGpt, path, with_answer(Shape::ChatGpt, f, yes)) == yes
            &&& shape_fits(Shape::Facebook, path, with_answer(Shape::Facebook, f, yes)) == yes
            &&& shape_fits(Shape::Twitter, path, with_answer(Shape::Twitter, f, yes)) == yes
            &&& shape_fits(Shape::Obsidian, path, with_answer(Shape::Obsidian, f, yes)) == yes
            &&& shape_fits(Shape::Markdown, path, with_answer(Shape::Markdown, f, yes)) == yes
            &&& shape_fits(Shape::GrokTree, path, with_answer(Shape::GrokTree, f, yes)) == yes
            &&& yes ==> shape_fits(Shape::Telegram, path, with_answer(Shape::Telegram, f, yes))
        }),
{
}

/// A file is asked only what its name leaves open.
pub proof fn law_a_file_is_asked_what_its_name_leaves_open(path: Seq<char>)
    ensures
        ({
            let f = bare_facts(true, false);
            &&& shape_question(Shape::Telegram, path, f) == Some((Fact::Telegram, path))
            &&& shape_fits(Shape::Telegram, path, with_answer(Shape::Telegram, f, true))
            &&& user_json(name_or_empty(path)) ==> shape_question(Shape::ChatGpt, path, f) == Some(
                (Fact::InChatGpt, path),
            )
            &&& asks_for_sessions(path) ==> shape_question(Shape::SessionSqlite, path, f) == Some(
                (Fact::SessionIndex, path),
            ) && shape_fits(
                Shape::SessionSqlite,
                path,
                with_answer(Shape::SessionSqlite, f, true),
            ) && !shape_fits(
                Shape::SessionSqlite,
                path,
                with_answer(Shape::SessionSqlite, f, false),
            )
            &&& shape_question(Shape::Facebook, path, f) is None
            &&& shape_question(Shape::Twitter, path, f) is None
            &&& shape_question(Shape::Obsidian, path, f) is None
            &&& shape_question(Shape::Markdown, path, f) is None
        }),
{
}

/// Every export of a tree is asked for its account.
pub proof fn law_every_backend_is_asked<A: Fn(&str) -> Result<Option<String>, Error>>(
    auth: A,
    backends: Seq<Seq<char>>,
    all: Seq<Option<Seq<char>>>,
    k: int,
)
    requires
        auths_said(auth, backends, Ok(all)),
        0 <= k < backends.len(),
    ensures
        all.len() == backends.len(),
        exists|name: Option<String>| #[trigger]
            auth_said(auth, backends[k], Ok(name)) && opt_view(name) == all[k],
    decreases backends.len(),
{
    let (a, b) = choose|
        a: Result<Seq<Option<Seq<char>>>, Error>,
        b: Result<Seq<Option<Seq<char>>>, Error>,
    | #[trigger]
        chained(a, b, Ok(all)) && auths_said(auth, backends.drop_last(), a) && (a is Ok
            ==> one_auth(auth, backends.last(), b));
    let x = a->Ok_0;
    let name = choose|name: Result<Option<String>, Error>| #[trigger]
        auth_said(auth, backends.last(), name) && b == (match name {
            Ok(n) => Ok::<Seq<Option<Seq<char>>>, Error>(seq![opt_view(n)]),
            Err(e) => Err::<Seq<Option<Seq<char>>>, Error>(e),
        });
    if backends.len() > 1 {
        law_every_backend_is_asked(auth, backends.drop_last(), x, if k < backends.len() - 1 {
            k
        } else {
            0
        });
        if k < backends.len() - 1 {
            assert(backends.drop_last()[k] == backends[k]);
            assert(x[k] == all[k]);
        }
    }
    if k == backends.len() - 1 {
        assert(auth_said(auth, backends[k], Ok(name->Ok_0)));
    }
}

} // verus!
