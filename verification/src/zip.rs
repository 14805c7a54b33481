//! Zip exports: what kind an archive is, and which entries are read.
//!
//! Entries are streamed by the caller. Encrypted entries, entries larger than
//! a limit and zips inside zips are skipped.
use vstd::prelude::*;

use crate::names::{
    activity_path, conversations_json, dotted, has_activity_path, has_dotted, image_name,
    inner_file_name, inner_name, is_account_js_name, is_conversations_json_name, is_dotted,
    is_facebook_activity_json, is_facebook_image_name, is_tweet_js_name,
    is_twitter_payload_js_name, law_inner_name, one_part, payload_js, tweet_js,
};
use crate::order::{sort_order, sorted_positions};
use crate::paths::{
    extension, extension_of, joined, law_joined_name, law_name_and_extension, plain_name,
};
use crate::text::{chars_of, eq_ascii, lower, same_ascii, same_str};

verus! {

/// Larger uncompressed entries are skipped: 8 GiB.
pub const MAX_UNCOMPRESSED: u64 = 8589934592;

/// How a zip is ingested, known by the names inside.
#[derive(Debug, Clone, Copy, PartialEq, Eq, Structural)]
pub enum ZipKind {
    ChatGpt,
    Grok,
    Telegram,
    Facebook,
    Twitter,
}

/// A path with the extension `zip`.
pub open spec fn zip_path(path: Seq<char>) -> bool {
    match extension(path) {
        Some(ext) => same_ascii(ext, "zip"@),
        None => false,
    }
}

/// Whether a path has the extension `zip`.
pub fn is_zip_path(path: &str) -> (r: bool)
    ensures
        r == zip_path(path@),
{
    match extension_of(path) {
        Some(ext) => eq_ascii(ext.as_str(), "zip"),
        None => false,
    }
}

/// An entry name that ends with a slash of either kind.
pub open spec fn directory_name(name: Seq<char>) -> bool {
    name.len() > 0 && (name.last() == '/' || name.last() == '\\')
}

/// A zip inside a zip.
pub open spec fn nested_zip(name: Seq<char>) -> bool {
    has_dotted(inner_name(name), "zip"@)
}

fn is_nested_zip_name(name: &str) -> (r: bool)
    ensures
        r == nested_zip(name@),
{
    let inner = inner_file_name(name);
    is_dotted(inner.as_str(), "zip")
}

fn is_directory_name(name: &str) -> (r: bool)
    ensures
        r == directory_name(name@),
{
    let v = chars_of(name);
    v.len() > 0 && (v[v.len() - 1] == '/' || v[v.len() - 1] == '\\')
}

/// A mark that an entry name can carry.
#[derive(Clone, Copy, Debug, PartialEq, Eq, Structural)]
pub enum Mark {
    User,
    Conversations,
    Grok,
    Telegram,
    Facebook,
    AccountJs,
    TweetJs,
}

/// An entry name carries a mark. Directories and nested zips carry none but
/// the activity folder.
pub open spec fn carries(name: Seq<char>, mark: Mark) -> bool {
    let plain = !directory_name(name) && !nested_zip(name);
    let inner = inner_name(name);
    match mark {
        Mark::Facebook => activity_path(name),
        Mark::User => plain && same_ascii(inner, "user.json"@),
        Mark::Conversations => plain && conversations_json(inner),
        Mark::Grok => plain && inner == "prod-grok-backend.json"@,
        Mark::Telegram => plain && inner == "result.json"@,
        Mark::AccountJs => plain && same_ascii(inner_name(inner), "account.js"@),
        Mark::TweetJs => plain && tweet_js(inner),
    }
}

/// Some entry name carries a mark.
pub open spec fn any_carries(names: Seq<String>, mark: Mark) -> bool {
    exists|i: int| 0 <= i < names.len() && carries((#[trigger] names[i])@, mark)
}

/// The kind of a zip with these entry names.
pub open spec fn zip_kind(names: Seq<String>) -> Option<ZipKind> {
    if any_carries(names, Mark::Facebook) {
        Some(ZipKind::Facebook)
    } else if any_carries(names, Mark::User) && any_carries(names, Mark::Conversations) {
        Some(ZipKind::ChatGpt)
    } else if any_carries(names, Mark::Grok) {
        Some(ZipKind::Grok)
    } else if any_carries(names, Mark::Telegram) {
        Some(ZipKind::Telegram)
    } else if any_carries(names, Mark::AccountJs) && any_carries(names, Mark::TweetJs) {
        Some(ZipKind::Twitter)
    } else {
        None
    }
}

fn has_mark(name: &str, mark: Mark) -> (r: bool)
    ensures
        r == carries(name@, mark),
{
    match mark {
        Mark::Facebook => {
            return has_activity_path(name);
        },
        _ => {},
    }
    if is_directory_name(name) || is_nested_zip_name(name) {
        return false;
    }
    let inner = inner_file_name(name);
    let n = inner.as_str();
    match mark {
        Mark::Facebook => has_activity_path(name),
        Mark::User => eq_ascii(n, "user.json"),
        Mark::Conversations => is_conversations_json_name(n),
        Mark::Grok => same_str(n, "prod-grok-backend.json"),
        Mark::Telegram => same_str(n, "result.json"),
        Mark::AccountJs => is_account_js_name(n),
        Mark::TweetJs => is_tweet_js_name(n),
    }
}

fn any_has_mark(names: &Vec<String>, mark: Mark) -> (r: bool)
    ensures
        r == any_carries(names@, mark),
{
    let mut i: usize = 0;
    while i < names.len()
        invariant
            i <= names@.len(),
            forall|k: int| 0 <= k < i ==> !carries((#[trigger] names@[k])@, mark),
        decreases names.len() - i,
    {
        if has_mark(names[i].as_str(), mark) {
            return true;
        }
        i = i + 1;
    }
    false
}

/// The kind of a zip, from the names of its central directory.
pub fn kind_from_names(names: &Vec<String>) -> (r: Option<ZipKind>)
    ensures
        r == zip_kind(names@),
{
    if any_has_mark(names, Mark::Facebook) {
        Some(ZipKind::Facebook)
    } else if any_has_mark(names, Mark::User) && any_has_mark(names, Mark::Conversations) {
        Some(ZipKind::ChatGpt)
    } else if any_has_mark(names, Mark::Grok) {
        Some(ZipKind::Grok)
    } else if any_has_mark(names, Mark::Telegram) {
        Some(ZipKind::Telegram)
    } else if any_has_mark(names, Mark::AccountJs) && any_has_mark(names, Mark::TweetJs) {
        Some(ZipKind::Twitter)
    } else {
        None
    }
}

/// Why an entry is skipped.
pub open spec fn skip_text(
    name: Seq<char>,
    encrypted: bool,
    uncompressed: u64,
    is_dir: bool,
    max_uncompressed: u64,
) -> Option<Seq<char>> {
    if is_dir || directory_name(name) {
        Some("directory entry"@)
    } else if encrypted {
        Some("encrypted zip entry"@)
    } else if uncompressed > max_uncompressed {
        Some("uncompressed zip entry exceeds the configured size limit"@)
    } else if nested_zip(name) {
        Some("zip-inside-zip"@)
    } else {
        None
    }
}

/// Why an entry is skipped.
pub fn skip_reason(
    name: &str,
    encrypted: bool,
    uncompressed: u64,
    is_dir: bool,
    max_uncompressed: u64,
) -> (r: Option<&'static str>)
    ensures
        crate::paths::opt_str(r) == skip_text(
            name@,
            encrypted,
            uncompressed,
            is_dir,
            max_uncompressed,
        ),
{
    if is_dir || is_directory_name(name) {
        return Some("directory entry");
    }
    if encrypted {
        return Some("encrypted zip entry");
    }
    if uncompressed > max_uncompressed {
        return Some("uncompressed zip entry exceeds the configured size limit");
    }
    if is_nested_zip_name(name) {
        return Some("zip-inside-zip");
    }
    None
}

/// An entry that is read is a plain file within the limit.
pub proof fn law_read_entries_are_plain(
    name: Seq<char>,
    encrypted: bool,
    uncompressed: u64,
    is_dir: bool,
    max_uncompressed: u64,
)
    ensures
        skip_text(name, encrypted, uncompressed, is_dir, max_uncompressed) is None <==> !is_dir
            && !directory_name(name) && !encrypted && uncompressed <= max_uncompressed
            && !nested_zip(name),
{
}

/// Which entries of a zip are read.
#[derive(Clone, Copy, Debug, PartialEq, Eq, Structural)]
pub enum Wanted {
    Conversations,
    FacebookActivity,
    FacebookImages,
    TwitterPayload,
}

/// A name is wanted.
pub open spec fn wanted(name: Seq<char>, w: Wanted) -> bool {
    match w {
        Wanted::Conversations => conversations_json(name),
        Wanted::FacebookActivity => activity_path(name) && has_dotted(inner_name(name), "json"@),
        Wanted::FacebookImages => image_name(name),
        Wanted::TwitterPayload => payload_js(name),
    }
}

/// An entry is read when its last component or its whole name is wanted.
pub open spec fn entry_wanted(name: Seq<char>, w: Wanted) -> bool {
    wanted(inner_name(name), w) || wanted(name, w)
}

fn is_wanted(name: &str, w: Wanted) -> (r: bool)
    ensures
        r == wanted(name@, w),
{
    match w {
        Wanted::Conversations => is_conversations_json_name(name),
        Wanted::FacebookActivity => is_facebook_activity_json(name),
        Wanted::FacebookImages => is_facebook_image_name(name),
        Wanted::TwitterPayload => is_twitter_payload_js_name(name),
    }
}

/// The positions of the entries that are read.
pub open spec fn wanted_positions(names: Seq<String>, w: Wanted) -> Seq<usize>
    decreases names.len(),
{
    if names.len() == 0 {
        Seq::empty()
    } else {
        let head = wanted_positions(names.drop_last(), w);
        if entry_wanted(names.last()@, w) {
            head.push((names.len() - 1) as usize)
        } else {
            head
        }
    }
}

/// `r` lists the wanted entries by name; equal names keep their places.
pub open spec fn entries_by_name(names: Seq<String>, w: Wanted, r: Seq<usize>) -> bool {
    exists|keys: Seq<String>, p: Seq<usize>|
        {
            &&& keys.len() == wanted_positions(names, w).len()
            &&& forall|i: int|
                0 <= i < keys.len() ==> (#[trigger] keys[i])@ == names[wanted_positions(
                    names,
                    w,
                )[i] as int]@
            &&& #[trigger] sorted_positions(keys, 0, keys.len() as int, p)
            &&& r.len() == keys.len()
            &&& forall|i: int|
                0 <= i < r.len() ==> #[trigger] r[i] == wanted_positions(names, w)[p[i] as int]
        }
}

/// The entries that are read, by name. The caller opens each and skips those
/// with a [`skip_reason`].
pub fn matching_entries(names: &Vec<String>, w: Wanted) -> (r: Vec<usize>)
    ensures
        entries_by_name(names@, w, r@),
        forall|i: int| 0 <= i < r@.len() ==> (#[trigger] r@[i]) < names@.len(),
{
    let mut found: Vec<usize> = Vec::new();
    let mut keys: Vec<String> = Vec::new();
    let mut i: usize = 0;
    proof {
        assert(names@.take(0) =~= Seq::<String>::empty());
    }
    while i < names.len()
        invariant
            i <= names@.len(),
            found@ == wanted_positions(names@.take(i as int), w),
            keys@.len() == found@.len(),
            forall|k: int| 0 <= k < found@.len() ==> (#[trigger] found@[k]) < i,
            forall|k: int|
                0 <= k < keys@.len() ==> (#[trigger] keys@[k])@ == names@[found@[k] as int]@,
        decreases names.len() - i,
    {
        proof {
            assert(names@.take(i + 1).drop_last() =~= names@.take(i as int));
        }
        let name = names[i].as_str();
        let inner = inner_file_name(name);
        if is_wanted(inner.as_str(), w) || is_wanted(name, w) {
            found.push(i);
            keys.push(names[i].clone());
        }
        i = i + 1;
    }
    proof {
        assert(names@.take(names@.len() as int) =~= names@);
    }
    let p = sort_order(&keys);
    let mut out: Vec<usize> = Vec::new();
    let mut j: usize = 0;
    while j < p.len()
        invariant
            j <= p@.len(),
            p@.len() == p.len(),
            keys@.len() == found@.len(),
            sorted_positions(keys@, 0, keys@.len() as int, p@),
            out@.len() == j,
            forall|k: int| 0 <= k < found@.len() ==> (#[trigger] found@[k]) < names@.len(),
            forall|k: int| 0 <= k < j ==> #[trigger] out@[k] == found@[p@[k] as int],
            forall|k: int| 0 <= k < j ==> (#[trigger] out@[k]) < names@.len(),
        decreases p.len() - j,
    {
        proof {
            assert(p@.contains(p@[j as int]));
        }
        out.push(found[p[j]]);
        j = j + 1;
    }
    proof {
        assert(sorted_positions(keys@, 0, keys@.len() as int, p@));
    }
    out
}

/// The first entry whose last component is `file_name`, up to ASCII case.
pub fn named_entry(names: &Vec<String>, file_name: &str) -> (r: Option<usize>)
    ensures
        match r {
            Some(i) => i < names@.len() && same_ascii(inner_name(names@[i as int]@), file_name@)
                && forall|k: int|
                0 <= k < i ==> !same_ascii(inner_name((#[trigger] names@[k])@), file_name@),
            None => forall|k: int|
                0 <= k < names@.len() ==> !same_ascii(
                    inner_name((#[trigger] names@[k])@),
                    file_name@,
                ),
        },
{
    let mut i: usize = 0;
    while i < names.len()
        invariant
            i <= names@.len(),
            forall|k: int|
                0 <= k < i ==> !same_ascii(inner_name((#[trigger] names@[k])@), file_name@),
        decreases names.len() - i,
    {
        let inner = inner_file_name(names[i].as_str());
        if eq_ascii(inner.as_str(), file_name) {
            return Some(i);
        }
        i = i + 1;
    }
    None
}

/// A path is a zip by its extension, in either case.
pub proof fn law_zip_path(dir: Seq<char>, stem: Seq<char>, ext: Seq<char>)
    requires
        stem.len() > 0,
        !ext.contains('.'),
        plain_name(stem + seq!['.'] + ext),
    ensures
        zip_path(joined(dir, stem + seq!['.'] + ext)) <==> lower(ext) == lower("zip"@),
{
    law_joined_name(dir, stem + seq!['.'] + ext);
    law_name_and_extension(stem, ext);
}

/// What an entry of a zip tells of its kind. The file names count in any
/// folder, a folder entry or a zip in the zip counts for none of them.
pub proof fn law_marks(dir: Seq<char>, name: Seq<char>)
    requires
        one_part(name),
        dotted(name) is Some && !same_ascii(dotted(name)->0, "zip"@),
    ensures
        ({
            let entry = dir + seq!['/'] + name;
            &&& carries(entry, Mark::Grok) <==> name == "prod-grok-backend.json"@
            &&& carries(entry, Mark::Telegram) <==> name == "result.json"@
            &&& carries(entry, Mark::User) <==> same_ascii(name, "user.json"@)
            &&& carries(entry, Mark::AccountJs) <==> same_ascii(name, "account.js"@)
            &&& carries(entry, Mark::TweetJs) <==> same_ascii(name, "tweet.js"@) || same_ascii(
                name,
                "tweets.js"@,
            )
            &&& carries(entry, Mark::Conversations) <==> conversations_json(name)
        }),
        !carries(dir + seq!['/'] + name + seq!['/'], Mark::Grok),
        !carries(dir + seq!['/'] + name + seq!['/'], Mark::Telegram),
        !carries(dir + seq!['/'] + name + seq!['/'], Mark::User),
        !carries(dir + seq!['/'] + name + seq!['/'], Mark::Conversations),
{
    let entry = dir + seq!['/'] + name;
    law_inner_name(dir, name);
    let last = name[name.len() - 1];
    assert(name.contains(last));
    assert(entry.last() == last);
    assert((entry + seq!['/']).last() == '/');
}

/// The kind of a zip: an activity folder makes it Facebook, users with
/// conversations ChatGPT, a backend file Grok, a result file Telegram, an
/// account with tweets X. The first of these that holds decides.
pub proof fn law_zip_kinds(names: Seq<String>)
    ensures
        ({
            let fb = any_carries(names, Mark::Facebook);
            let gpt = any_carries(names, Mark::User) && any_carries(names, Mark::Conversations);
            let grok = any_carries(names, Mark::Grok);
            let tg = any_carries(names, Mark::Telegram);
            let x = any_carries(names, Mark::AccountJs) && any_carries(names, Mark::TweetJs);
            &&& zip_kind(names) is None <==> !fb && !gpt && !grok && !tg && !x
            &&& zip_kind(names) == Some(ZipKind::Facebook) <==> fb
            &&& zip_kind(names) == Some(ZipKind::ChatGpt) <==> gpt && !fb
            &&& zip_kind(names) == Some(ZipKind::Grok) <==> grok && !fb && !gpt
            &&& zip_kind(names) == Some(ZipKind::Telegram) <==> tg && !fb && !gpt && !grok
            &&& zip_kind(names) == Some(ZipKind::Twitter) <==> x && !fb && !gpt && !grok && !tg
        }),
        forall|k: int, m: Mark|
            0 <= k < names.len() && #[trigger] carries(names[k]@, m) ==> any_carries(names, m),
{
}

/// The entries that an import wants are exactly those whose name, or whose
/// file name, is wanted. None is listed twice.
pub proof fn law_wanted_entries(names: Seq<String>, w: Wanted, k: int)
    requires
        names.len() <= usize::MAX,
        0 <= k < names.len(),
    ensures
        wanted_positions(names, w).contains(k as usize) <==> wanted(inner_name(names[k]@), w)
            || wanted(names[k]@, w),
        wanted_positions(names, w).no_duplicates(),
        forall|j: int|
            0 <= j < wanted_positions(names, w).len() ==> #[trigger] wanted_positions(names, w)[j]
                < names.len(),
    decreases names.len(),
{
    let n = names.len() - 1;
    let init = names.drop_last();
    let head = wanted_positions(init, w);
    let all = wanted_positions(names, w);
    lemma_wanted_bound(init, w);
    lemma_wanted_bound(names, w);
    if k < n {
        law_wanted_entries(init, w, k);
        assert(init[k] == names[k]);
        if head.contains(k as usize) {
            let j = choose|j: int| 0 <= j < head.len() && head[j] == k as usize;
            assert(all[j] == k as usize);
        }
        if all.contains(k as usize) {
            let j = choose|j: int| 0 <= j < all.len() && all[j] == k as usize;
            if j < head.len() {
                assert(head[j] == k as usize);
            }
        }
    } else {
        if entry_wanted(names[n]@, w) {
            assert(all[head.len() as int] == k as usize);
        } else if all.contains(k as usize) {
            let j = choose|j: int| 0 <= j < all.len() && all[j] == k as usize;
            assert(head[j] < n);
        }
    }
}

proof fn lemma_wanted_bound(names: Seq<String>, w: Wanted)
    requires
        names.len() <= usize::MAX,
    ensures
        forall|j: int|
            0 <= j < wanted_positions(names, w).len() ==> #[trigger] wanted_positions(names, w)[j]
                < names.len(),
        wanted_positions(names, w).no_duplicates(),
    decreases names.len(),
{
    if names.len() > 0 {
        lemma_wanted_bound(names.drop_last(), w);
    }
}

} // verus!
