//! File names by which account exports are known.
use vstd::prelude::*;

use crate::paths::{
    file_name, file_name_of, joined, law_joined_name, law_name_and_extension, lemma_split_around,
    lemma_split_before, opt_view, parent_name, parent_name_of, plain_name, stem_of_name,
};
use crate::text::{
    chars_of, contains_char, either, ends, eq_ascii, find_last, last_index, law_places,
    law_starts_and_ends, lower, same_ascii, same_str, split2, split_at_char, split_by, split_char, starts, starts_with, string_range,
    strip_end, to_lower, views,
};

verus! {

/// Telegram Desktop export.
pub const RESULT_FILE_NAME: &'static str = "result.json";

/// Account file of a ChatGPT export.
pub const USER_FILE_NAME: &'static str = "user.json";

/// Account file of an X archive.
pub const ACCOUNT_FILE_NAME: &'static str = "account.js";

/// Backend file of a Grok export.
pub const BACKEND_FILE_NAME: &'static str = "prod-grok-backend.json";

/// Activity folder of a Facebook export.
pub const FACEBOOK_ACTIVITY_DIR: &'static str = "your_facebook_activity";

/// Activity folder of an Instagram export.
pub const INSTAGRAM_ACTIVITY_DIR: &'static str = "your_instagram_activity";

/// The pieces of an entry name between slashes of either kind.
pub open spec fn entry_parts(name: Seq<char>) -> Seq<Seq<char>> {
    split_by(name, either('/', '\\'))
}

/// Last component of an entry name. A name that ends with a slash stands for
/// itself.
pub open spec fn inner_name(name: Seq<char>) -> Seq<char> {
    let last = entry_parts(name).last();
    if last.len() > 0 {
        last
    } else {
        name
    }
}

/// Last component of an entry name: `ChatGPT/user.json` is `user.json`.
pub fn inner_file_name(name: &str) -> (r: String)
    ensures
        r@ == inner_name(name@),
{
    let mut parts = split2(name, '/', '\\');
    proof {
        assert(views(parts@).last() == parts@.last()@);
    }
    match parts.pop() {
        Some(last) => {
            if last.is_empty() {
                name.to_owned()
            } else {
                last
            }
        },
        None => name.to_owned(),
    }
}

/// What follows the last dot of a name.
pub open spec fn dotted(name: Seq<char>) -> Option<Seq<char>> {
    let dot = last_index(name, '.');
    if dot >= 0 {
        Some(name.skip(dot + 1))
    } else {
        None
    }
}

/// What follows the last dot of a name.
pub fn dotted_part(name: &str) -> (r: Option<String>)
    ensures
        opt_view(r) == dotted(name@),
{
    let v = chars_of(name);
    match find_last(&v, '.') {
        Some(dot) => {
            proof {
                assert(v@.subrange(dot + 1, v@.len() as int) =~= name@.skip(dot + 1));
            }
            Some(string_range(&v, dot + 1, v.len()))
        },
        None => None,
    }
}

/// The last dotted part of a name is `ext`, up to ASCII case.
pub open spec fn has_dotted(name: Seq<char>, ext: Seq<char>) -> bool {
    match dotted(name) {
        Some(e) => same_ascii(e, ext),
        None => false,
    }
}

/// Whether the last dotted part of a name is `ext`, up to ASCII case.
pub fn is_dotted(name: &str, ext: &str) -> (r: bool)
    ensures
        r == has_dotted(name@, ext@),
{
    match dotted_part(name) {
        Some(e) => eq_ascii(e.as_str(), ext),
        None => false,
    }
}

/// The name of a ChatGPT account file.
pub open spec fn user_json(name: Seq<char>) -> bool {
    same_ascii(inner_name(name), "user.json"@)
}

/// Whether a name is that of a ChatGPT account file.
pub fn is_user_json_name(name: &str) -> (r: bool)
    ensures
        r == user_json(name@),
{
    let inner = inner_file_name(name);
    eq_ascii(inner.as_str(), USER_FILE_NAME)
}

/// The name of a ChatGPT conversations file.
pub open spec fn conversations_json(name: Seq<char>) -> bool {
    let inner = inner_name(name);
    let stem = inner.take(inner.len() - ".json"@.len());
    ends(inner, ".json"@) && (stem == "conversations"@ || starts(stem, "conversations-"@))
}

/// Whether a name is that of a ChatGPT conversations file.
pub fn is_conversations_json_name(name: &str) -> (r: bool)
    ensures
        r == conversations_json(name@),
{
    let inner = inner_file_name(name);
    match strip_end(inner.as_str(), ".json") {
        Some(stem) => same_str(stem.as_str(), "conversations") || starts_with(
            stem.as_str(),
            "conversations-",
        ),
        None => false,
    }
}

/// An activity folder of Facebook or Instagram.
pub open spec fn activity_dir(name: Seq<char>) -> bool {
    name == "your_facebook_activity"@ || name == "your_instagram_activity"@
}

/// Whether a name is that of an activity folder.
pub fn is_activity_dir_name(name: &str) -> (r: bool)
    ensures
        r == activity_dir(name@),
{
    same_str(name, FACEBOOK_ACTIVITY_DIR) || same_str(name, INSTAGRAM_ACTIVITY_DIR)
}

/// An entry name with an activity folder among its components.
pub open spec fn activity_path(name: Seq<char>) -> bool {
    exists|i: int|
        0 <= i < entry_parts(name).len() && activity_dir(#[trigger] entry_parts(name)[i])
}

/// Whether an entry name has an activity folder among its components.
pub fn has_activity_path(name: &str) -> (r: bool)
    ensures
        r == activity_path(name@),
{
    let parts = split2(name, '/', '\\');
    let mut i: usize = 0;
    while i < parts.len()
        invariant
            i <= parts@.len(),
            views(parts@) == entry_parts(name@),
            forall|k: int| 0 <= k < i ==> !activity_dir(#[trigger] entry_parts(name@)[k]),
        decreases parts.len() - i,
    {
        proof {
            assert(views(parts@)[i as int] == parts@[i as int]@);
        }
        if is_activity_dir_name(parts[i].as_str()) {
            return true;
        }
        i = i + 1;
    }
    proof {
        assert(views(parts@).len() == parts@.len());
    }
    false
}

/// Whether an entry is an activity file.
pub fn is_facebook_activity_json(name: &str) -> (r: bool)
    ensures
        r == (activity_path(name@) && has_dotted(inner_name(name@), "json"@)),
{
    if !has_activity_path(name) {
        return false;
    }
    let inner = inner_file_name(name);
    is_dotted(inner.as_str(), "json")
}

/// An image by its name.
pub open spec fn image_name(name: Seq<char>) -> bool {
    let inner = inner_name(name);
    has_dotted(inner, "jpg"@) || has_dotted(inner, "jpeg"@) || has_dotted(inner, "png"@)
        || has_dotted(inner, "gif"@)
}

/// Whether an entry is an image by its name.
pub fn is_facebook_image_name(name: &str) -> (r: bool)
    ensures
        r == image_name(name@),
{
    let inner = inner_file_name(name);
    let n = inner.as_str();
    is_dotted(n, "jpg") || is_dotted(n, "jpeg") || is_dotted(n, "png") || is_dotted(n, "gif")
}

/// Whether a name is that of the account file of an X archive.
pub fn is_account_js_name(name: &str) -> (r: bool)
    ensures
        r == same_ascii(inner_name(name@), "account.js"@),
{
    let inner = inner_file_name(name);
    eq_ascii(inner.as_str(), ACCOUNT_FILE_NAME)
}

/// The name of a tweet file of an X archive.
pub open spec fn tweet_js(name: Seq<char>) -> bool {
    same_ascii(inner_name(name), "tweet.js"@) || same_ascii(inner_name(name), "tweets.js"@)
}

/// Whether a name is that of a tweet file of an X archive.
pub fn is_tweet_js_name(name: &str) -> (r: bool)
    ensures
        r == tweet_js(name@),
{
    let inner = inner_file_name(name);
    eq_ascii(inner.as_str(), "tweet.js") || eq_ascii(inner.as_str(), "tweets.js")
}

/// A name without `.js` or `.JS`.
pub open spec fn js_stem(name: Seq<char>) -> Option<Seq<char>> {
    if ends(name, ".js"@) || ends(name, ".JS"@) {
        Some(name.take(name.len() - 3))
    } else {
        None
    }
}

fn strip_js_stem(name: &str) -> (r: Option<String>)
    ensures
        opt_view(r) == js_stem(name@),
{
    proof {
        reveal_strlit(".js");
        reveal_strlit(".JS");
    }
    match strip_end(name, ".js") {
        Some(stem) => Some(stem),
        None => strip_end(name, ".JS"),
    }
}

/// The stem of a file of an X archive that holds tweets, likes or direct
/// messages.
pub open spec fn payload_stem(stem: Seq<char>) -> bool {
    ||| stem == "tweet"@
    ||| stem == "tweets"@
    ||| starts(stem, "tweet-"@)
    ||| starts(stem, "tweets-"@)
    ||| stem == "like"@
    ||| stem == "likes"@
    ||| starts(stem, "like-"@)
    ||| starts(stem, "likes-"@)
    ||| starts(stem, "direct-messages"@)
}

/// The name of a file of an X archive that holds tweets, likes or direct
/// messages.
pub open spec fn payload_js(name: Seq<char>) -> bool {
    match js_stem(inner_name(name)) {
        Some(stem) => payload_stem(lower(stem)),
        None => false,
    }
}

/// Whether a name is that of a file of an X archive that holds tweets, likes
/// or direct messages. The account file is none, so that no email address
/// becomes searchable.
pub fn is_twitter_payload_js_name(name: &str) -> (r: bool)
    ensures
        r == payload_js(name@),
{
    let inner = inner_file_name(name);
    match strip_js_stem(inner.as_str()) {
        Some(stem) => {
            let low = to_lower(stem.as_str());
            let s = low.as_str();
            same_str(s, "tweet") || same_str(s, "tweets") || starts_with(s, "tweet-")
                || starts_with(s, "tweets-") || same_str(s, "like") || same_str(s, "likes")
                || starts_with(s, "like-") || starts_with(s, "likes-") || starts_with(
                s,
                "direct-messages",
            )
        },
        None => false,
    }
}

/// A path that names a Telegram Desktop export.
pub open spec fn result_json(path: Seq<char>) -> bool {
    file_name(path) == Some("result.json"@)
}

/// Whether a path names a Telegram Desktop export.
pub fn is_result_json_name(path: &str) -> (r: bool)
    ensures
        r == result_json(path@),
{
    match file_name_of(path) {
        Some(name) => same_str(name.as_str(), RESULT_FILE_NAME),
        None => false,
    }
}

/// Whether a directory name is that of a Telegram Desktop dump.
pub fn is_chatexport_dir_name(name: &str) -> (r: bool)
    ensures
        r == starts(name@, "ChatExport_"@),
{
    starts_with(name, "ChatExport_")
}

/// A `result.json` in a directory of a Telegram Desktop dump.
pub open spec fn chatexport_result(path: Seq<char>) -> bool {
    result_json(path) && match parent_name(path) {
        Some(dir) => starts(dir, "ChatExport_"@),
        None => false,
    }
}

/// Whether a path is a `result.json` in a directory of a Telegram Desktop
/// dump.
pub fn is_chatexport_result_json(path: &str) -> (r: bool)
    ensures
        r == chatexport_result(path@),
{
    if !is_result_json_name(path) {
        return false;
    }
    match parent_name_of(path) {
        Some(dir) => is_chatexport_dir_name(dir.as_str()),
        None => false,
    }
}

/// What follows `facebook-` or `instagram-`, up to ASCII case.
pub open spec fn after_meta_prefix(stem: Seq<char>) -> Option<Seq<char>> {
    if stem.len() >= 9 && same_ascii(stem.take(9), "facebook-"@) {
        Some(stem.skip(9))
    } else if stem.len() >= 10 && same_ascii(stem.take(10), "instagram-"@) {
        Some(stem.skip(10))
    } else {
        None
    }
}

fn strip_facebook_prefix(stem: &str) -> (r: Option<String>)
    ensures
        opt_view(r) == after_meta_prefix(stem@),
{
    let v = chars_of(stem);
    if v.len() >= 9 {
        let head = string_range(&v, 0, 9);
        proof {
            assert(v@.subrange(0, 9) =~= stem@.take(9));
            assert(v@.subrange(9, v@.len() as int) =~= stem@.skip(9));
        }
        if eq_ascii(head.as_str(), "facebook-") {
            return Some(string_range(&v, 9, v.len()));
        }
    }
    if v.len() >= 10 {
        let head = string_range(&v, 0, 10);
        proof {
            assert(v@.subrange(0, 10) =~= stem@.take(10));
            assert(v@.subrange(10, v@.len() as int) =~= stem@.skip(10));
        }
        if eq_ascii(head.as_str(), "instagram-") {
            return Some(string_range(&v, 10, v.len()));
        }
    }
    None
}

/// The account in the name of a Meta export. An email address is none.
pub open spec fn meta_account(name: Seq<char>) -> Option<Seq<char>> {
    match after_meta_prefix(crate::paths::name_stem(name)) {
        Some(rest) => {
            let account = split_char(rest, '-')[0];
            if account.len() > 0 && !account.contains('@') {
                Some(account)
            } else {
                None
            }
        },
        None => None,
    }
}

fn account_from_file_name(name: &str) -> (r: Option<String>)
    ensures
        opt_view(r) == meta_account(name@),
{
    let stem = stem_of_name(name);
    match strip_facebook_prefix(stem.as_str()) {
        Some(rest) => {
            let parts = split_at_char(rest.as_str(), '-');
            proof {
                assert(views(parts@)[0] == parts@[0]@);
            }
            let account = parts[0].clone();
            if account.is_empty() || contains_char(account.as_str(), '@') {
                None
            } else {
                Some(account)
            }
        },
        None => None,
    }
}

/// The account in a name, where there is a name.
pub open spec fn opt_meta_account(name: Option<Seq<char>>) -> Option<Seq<char>> {
    match name {
        Some(n) => meta_account(n),
        None => None,
    }
}

/// The account in the path of a Meta export: its own name, else the name of
/// its directory.
pub open spec fn meta_path_account(path: Seq<char>) -> Option<Seq<char>> {
    match opt_meta_account(file_name(path)) {
        Some(a) => Some(a),
        None => opt_meta_account(parent_name(path)),
    }
}

/// The account in `facebook-{account}-` or `instagram-{account}-`. `None`
/// means the account of the user.
pub fn account_from_path(path: &str) -> (r: Option<String>)
    ensures
        opt_view(r) == meta_path_account(path@),
{
    match file_name_of(path) {
        Some(name) => match account_from_file_name(name.as_str()) {
            Some(a) => {
                return Some(a);
            },
            None => {},
        },
        None => {},
    }
    match parent_name_of(path) {
        Some(name) => account_from_file_name(name.as_str()),
        None => None,
    }
}

/// An account in the name of a Meta export is never an email address.
pub proof fn law_meta_account_is_no_email(path: Seq<char>)
    ensures
        meta_path_account(path) matches Some(a) ==> a.len() > 0 && !a.contains('@'),
{
}

/// Text without a path separator.
pub open spec fn one_part(s: Seq<char>) -> bool {
    s.len() > 0 && !s.contains('/') && !s.contains('\\')
}

proof fn lemma_last_part(dir: Seq<char>, c: char, name: Seq<char>)
    requires
        c == '/' || c == '\\',
        !name.contains('/') && !name.contains('\\'),
    ensures
        entry_parts(dir + seq![c] + name).last() == name,
        entry_parts(dir + seq![c] + name).len() > 0,
    decreases name.len(),
{
    let cut = either('/', '\\');
    let s = dir + seq![c] + name;
    let head = split_by(s.drop_last(), cut);
    if name.len() == 0 {
        assert(s.drop_last() =~= dir);
        assert(s.last() == c);
        assert(name =~= Seq::<char>::empty());
    } else {
        let init = name.drop_last();
        let x = name[name.len() - 1];
        assert(name.contains(x));
        assert(!init.contains('/') && !init.contains('\\')) by {
            assert(forall|i: int| 0 <= i < init.len() ==> name.contains(#[trigger] init[i])) by {
                assert forall|i: int| 0 <= i < init.len() implies name.contains(#[trigger] init[i]) by {
                    assert(name[i] == init[i]);
                }
            }
        }
        lemma_last_part(dir, c, init);
        assert(s.drop_last() =~= dir + seq![c] + init);
        assert(s.last() == x);
        assert(init.push(x) =~= name);
    }
}

proof fn lemma_only_part(name: Seq<char>)
    requires
        !name.contains('/') && !name.contains('\\'),
    ensures
        entry_parts(name) == seq![name],
    decreases name.len(),
{
    let cut = either('/', '\\');
    if name.len() == 0 {
        assert(name =~= Seq::<char>::empty());
    } else {
        let init = name.drop_last();
        let x = name[name.len() - 1];
        assert(name.contains(x));
        assert(!init.contains('/') && !init.contains('\\')) by {
            assert forall|i: int| 0 <= i < init.len() implies name.contains(#[trigger] init[i]) by {
                assert(name[i] == init[i]);
            }
        }
        lemma_only_part(init);
        assert(init.push(x) =~= name);
        assert(entry_parts(name) =~= seq![name]);
    }
}

/// The file name of an entry is what stands behind its last separator.
pub proof fn law_inner_name(dir: Seq<char>, name: Seq<char>)
    requires
        one_part(name),
    ensures
        inner_name(dir + seq!['/'] + name) == name,
        inner_name(dir + seq!['\\'] + name) == name,
        inner_name(name) == name,
{
    lemma_last_part(dir, '/', name);
    lemma_last_part(dir, '\\', name);
    lemma_only_part(name);
}

/// The part of a name behind its last dot.
pub proof fn law_dotted(stem: Seq<char>, ext: Seq<char>)
    requires
        !ext.contains('.'),
    ensures
        dotted(stem + seq!['.'] + ext) == Some(ext),
        dotted(ext) is None,
{
    let s = stem + seq!['.'] + ext;
    law_places(s, '.');
    law_places(ext, '.');
    let n = stem.len() as int;
    assert(s[n] == '.');
    assert(s.contains(s[n]));
    let p = last_index(s, '.');
    if p > n {
        assert(ext.contains(ext[p - n - 1]));
    }
    assert(s.skip(n + 1) =~= ext);
}

/// A file of conversations is `conversations.json` or `conversations-` and
/// more and `.json`, in any folder.
pub proof fn law_conversations_name(dir: Seq<char>, name: Seq<char>)
    requires
        one_part(name),
    ensures
        conversations_json(dir + seq!['/'] + name) == conversations_json(name),
        conversations_json(name) <==> name == "conversations.json"@ || exists|mid: Seq<char>|
            name == "conversations-"@ + #[trigger] mid.subrange(0, mid.len() as int) + ".json"@,
{
    law_inner_name(dir, name);
    reveal_strlit(".json");
    reveal_strlit("conversations");
    reveal_strlit("conversations-");
    reveal_strlit("conversations.json");
    assert("conversations"@ + ".json"@ =~= "conversations.json"@);
    let stem = name.take(name.len() - 5);
    if conversations_json(name) {
        law_starts_and_ends(".json"@, name);
        if stem != "conversations"@ {
            law_starts_and_ends("conversations-"@, stem);
            let mid = stem.skip(14);
            assert(mid.subrange(0, mid.len() as int) =~= mid);
            assert(name == "conversations-"@ + mid.subrange(0, mid.len() as int) + ".json"@);
        }
    }
    if name == "conversations.json"@ {
        law_starts_and_ends(".json"@, "conversations"@);
        assert(stem =~= "conversations"@);
    }
    if exists|mid: Seq<char>|
        name == "conversations-"@ + #[trigger] mid.subrange(0, mid.len() as int) + ".json"@ {
        let mid = choose|mid: Seq<char>|
            name == "conversations-"@ + #[trigger] mid.subrange(0, mid.len() as int) + ".json"@;
        let m = mid.subrange(0, mid.len() as int);
        law_starts_and_ends(".json"@, "conversations-"@ + m);
        law_starts_and_ends("conversations-"@, m);
        assert(stem =~= "conversations-"@ + m);
    }
}

/// The single files that exports are known by, in any folder and either case.
pub proof fn law_known_files(dir: Seq<char>, name: Seq<char>)
    requires
        one_part(name),
    ensures
        user_json(dir + seq!['/'] + name) <==> lower(name) == lower("user.json"@),
        tweet_js(dir + seq!['/'] + name) <==> lower(name) == lower("tweet.js"@) || lower(name)
            == lower("tweets.js"@),
{
    law_inner_name(dir, name);
}

/// An image is a file with one of these four endings, in either case.
pub proof fn law_images(dir: Seq<char>, stem: Seq<char>, ext: Seq<char>)
    requires
        one_part(stem + seq!['.'] + ext),
        !ext.contains('.'),
    ensures
        image_name(dir + seq!['/'] + (stem + seq!['.'] + ext)) <==> {
            ||| lower(ext) == lower("jpg"@)
            ||| lower(ext) == lower("jpeg"@)
            ||| lower(ext) == lower("png"@)
            ||| lower(ext) == lower("gif"@)
        },
{
    law_inner_name(dir, stem + seq!['.'] + ext);
    law_dotted(stem, ext);
}

/// The payload files of an X archive: tweets, likes and direct messages, whole
/// or in numbered parts. Other scripts are none.
pub proof fn law_payload_files(dir: Seq<char>, stem: Seq<char>)
    requires
        one_part(stem + seq!['.', 'j', 's']),
        lower(stem) == stem,
    ensures
        payload_js(dir + seq!['/'] + (stem + seq!['.', 'j', 's'])) <==> {
            ||| seq!["tweet"@, "tweets"@, "like"@, "likes"@].contains(stem)
            ||| "tweet-"@.is_prefix_of(stem)
            ||| "tweets-"@.is_prefix_of(stem)
            ||| "like-"@.is_prefix_of(stem)
            ||| "likes-"@.is_prefix_of(stem)
            ||| "direct-messages"@.is_prefix_of(stem)
        },
        one_part(stem) && !stem.contains('.') ==> !payload_js(stem),
{
    let name = stem + seq!['.', 'j', 's'];
    law_inner_name(dir, name);
    reveal_strlit(".js");
    reveal_strlit(".JS");
    assert(".js"@ =~= seq!['.', 'j', 's']);
    law_starts_and_ends(".js"@, stem);
    assert(name.take(name.len() - 3) =~= stem);
    let all = seq!["tweet"@, "tweets"@, "like"@, "likes"@];
    assert(all[0] == "tweet"@ && all[1] == "tweets"@ && all[2] == "like"@ && all[3] == "likes"@);
    if one_part(stem) && !stem.contains('.') {
        law_inner_name(dir, stem);
        if ends(stem, ".js"@) {
            assert(stem.skip(stem.len() - 3)[0] == stem[stem.len() - 3]);
        }
        if ends(stem, ".JS"@) {
            assert(stem.skip(stem.len() - 3)[0] == stem[stem.len() - 3]);
        }
    }
}

/// A path lies in an activity folder when one of its parts is one.
pub proof fn law_activity_path(dir: Seq<char>, name: Seq<char>)
    requires
        one_part(name),
    ensures
        activity_path(dir + seq!['/'] + "your_facebook_activity"@),
        activity_path(dir + seq!['/'] + "your_instagram_activity"@),
        activity_path(name) <==> name == "your_facebook_activity"@ || name
            == "your_instagram_activity"@,
{
    reveal_strlit("your_facebook_activity");
    reveal_strlit("your_instagram_activity");
    let (f, i) = ("your_facebook_activity"@, "your_instagram_activity"@);
    lemma_last_part(dir, '/', f);
    lemma_last_part(dir, '/', i);
    lemma_only_part(name);
    let a = entry_parts(dir + seq!['/'] + f);
    let b = entry_parts(dir + seq!['/'] + i);
    assert(activity_dir(a[a.len() - 1]));
    assert(activity_dir(b[b.len() - 1]));
    assert(entry_parts(name)[0] == name);
}

/// A Telegram chat export is `result.json` in a folder whose name starts with
/// `ChatExport_`.
pub proof fn law_chat_export(dir: Seq<char>, folder: Seq<char>, name: Seq<char>)
    requires
        plain_name(folder),
        plain_name(name),
    ensures
        chatexport_result(joined(joined(dir, folder), name)) <==> name == "result.json"@
            && "ChatExport_"@.is_prefix_of(folder),
        result_json(joined(joined(dir, folder), name)) <==> name == "result.json"@,
{
    law_joined_name(dir, folder);
    law_joined_name(joined(dir, folder), name);
}

/// The account in the name of a Facebook or Instagram dump stands behind the
/// service, up to the next dash.
pub proof fn law_meta_account(account: Seq<char>, rest: Seq<char>, ext: Seq<char>)
    requires
        account.len() > 0,
        !account.contains('-') && !account.contains('@'),
        !ext.contains('.'),
    ensures
        meta_account("facebook-"@ + account + seq!['-'] + rest + seq!['.'] + ext) == Some(account),
        meta_account("instagram-"@ + account + seq!['-'] + rest + seq!['.'] + ext) == Some(account),
{
    reveal_strlit("facebook-");
    reveal_strlit("instagram-");
    let tail = account + seq!['-'] + rest;
    let (f, i) = ("facebook-"@ + tail, "instagram-"@ + tail);
    assert("facebook-"@ + account + seq!['-'] + rest =~= f);
    assert("instagram-"@ + account + seq!['-'] + rest =~= i);
    law_name_and_extension(f, ext);
    law_name_and_extension(i, ext);
    assert(f.take(9) =~= "facebook-"@);
    assert(i.take(10) =~= "instagram-"@);
    assert(f.skip(9) =~= tail);
    assert(i.skip(10) =~= tail);
    assert(!same_ascii(i.take(9), "facebook-"@)) by {
        assert(lower(i.take(9))[0] == 'i');
        assert(lower("facebook-"@)[0] == 'f');
    }
    lemma_split_around(account, '-', rest);
    lemma_split_before(Seq::empty(), '-', account);
    assert(Seq::<char>::empty() + account =~= account);
    assert(split_char(account, '-') =~= seq![account]);
}

} // verus!
