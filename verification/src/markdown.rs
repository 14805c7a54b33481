//! Markdown files as conversations: front matter, title and body.
use vstd::prelude::*;

use crate::codec::root_of;
use crate::hash::{hash_bytes, hex};
use crate::number::{
    i64_value, law_parse_reads_decimal, law_parse_refuses_the_rest, parse_i64,
};
use crate::pairs::{law_placed_is_found, lookup, placed, union};
use crate::paths::{components, file_name, file_name_of, name_stem, opt_view, same_path, stem_of_name};
use crate::records::{
    bare, bare_response, empty_conversation, empty_response, opt_stamp, plain_item, says,
    Conversation, ConversationItem, ConversationView, ItemView, Response, ResponseItem,
    ResponseView, Stamp, Timestamp,
};
use crate::report::{relative, status_label};
use crate::schema::{union_extra, Atom, ExtraMap, JsonAtom};
use crate::text::{
    chars_of, decimal_int, find_first, first_index, is_white, law_decimal, law_places, law_trim,
    replace_char, replaced, same_str, split_at_char, split_char, starts, starts_with, string_range,
    trim, trim_end, trim_start, trimmed, views,
};
use crate::utf::utf8_text;

verus! {

/// The text of a byte string in which each ill-formed sequence is replaced.
pub uninterp spec fn lossy_text(bytes: Seq<u8>) -> Seq<char>;

/// `String::from_utf8_lossy` decodes bytes and puts U+FFFD in the place of
/// ill-formed sequences. The text is a function of the bytes alone.
#[verifier::external_body]
pub(crate) fn lossy(bytes: &[u8]) -> (r: String)
    ensures
        r@ == lossy_text(bytes@),
{
    String::from_utf8_lossy(bytes).into_owned()
}

/// How many `c` stand at the start of `s`.
pub open spec fn leading(s: Seq<char>, c: char) -> nat
    decreases s.len(),
{
    if s.len() > 0 && s[0] == c {
        1 + leading(s.drop_first(), c)
    } else {
        0
    }
}

/// `s` without the `c` at its end.
pub open spec fn trim_end_char(s: Seq<char>, c: char) -> Seq<char>
    decreases s.len(),
{
    if s.len() > 0 && s.last() == c {
        trim_end_char(s.drop_last(), c)
    } else {
        s
    }
}

/// The heading on a trimmed line: one to six `#`, then text. Closing `#` do
/// not belong to it.
pub open spec fn heading(line: Seq<char>) -> Option<Seq<char>> {
    let n = leading(line, '#');
    let rest = trim(trim_end_char(trim(line.skip(n as int)), '#'));
    if 1 <= n <= 6 && rest.len() > 0 {
        Some(rest)
    } else {
        None
    }
}

/// The heading on the first line that has one.
pub open spec fn heading_in(lines: Seq<Seq<char>>) -> Option<Seq<char>>
    decreases lines.len(),
{
    if lines.len() == 0 {
        None
    } else {
        match heading_in(lines.drop_last()) {
            Some(h) => Some(h),
            None => heading(trim(lines.last())),
        }
    }
}

/// How many `c` stand at the start of `v`.
fn count_leading(v: &Vec<char>, c: char) -> (r: usize)
    ensures
        r <= v@.len(),
        r == leading(v@, c),
{
    let mut i: usize = 0;
    proof {
        assert(v@.skip(0) =~= v@);
    }
    while i < v.len() && v[i] == c
        invariant
            i <= v@.len(),
            leading(v@, c) == i + leading(v@.skip(i as int), c),
        decreases v.len() - i,
    {
        proof {
            assert(v@.skip(i as int).drop_first() =~= v@.skip(i + 1));
        }
        i = i + 1;
    }
    i
}

/// `s` without the `c` at its end.
fn without_end(s: &str, c: char) -> (r: String)
    ensures
        r@ == trim_end_char(s@, c),
{
    let v = chars_of(s);
    let mut n: usize = v.len();
    proof {
        assert(v@.take(n as int) =~= v@);
    }
    while n > 0 && v[n - 1] == c
        invariant
            n <= v@.len(),
            trim_end_char(v@, c) == trim_end_char(v@.take(n as int), c),
        decreases n,
    {
        proof {
            assert(v@.take(n as int).drop_last() =~= v@.take(n - 1));
        }
        n = n - 1;
    }
    proof {
        assert(v@.subrange(0, n as int) =~= v@.take(n as int));
    }
    string_range(&v, 0, n)
}

/// The heading on a trimmed line.
fn heading_of(line: &str) -> (r: Option<String>)
    ensures
        opt_view(r) == heading(line@),
{
    let v = chars_of(line);
    let n = count_leading(&v, '#');
    if n < 1 || n > 6 {
        return None;
    }
    proof {
        assert(v@.subrange(n as int, v@.len() as int) =~= line@.skip(n as int));
    }
    let rest = trimmed(&without_end(&trimmed(&string_range(&v, n, v.len())), '#'));
    if rest.is_empty() {
        None
    } else {
        Some(rest)
    }
}

/// The first heading of a Markdown body.
pub fn first_heading(body: &str) -> (r: Option<String>)
    ensures
        opt_view(r) == heading_in(split_char(body@, '\n')),
{
    let lines = split_at_char(body, '\n');
    let ghost all = views(lines@);
    let mut found: Option<String> = None;
    let mut i: usize = 0;
    proof {
        assert(all.take(0) =~= Seq::<Seq<char>>::empty());
    }
    while i < lines.len()
        invariant
            i <= lines@.len(),
            all == views(lines@),
            opt_view(found) == heading_in(all.take(i as int)),
        decreases lines.len() - i,
    {
        proof {
            assert(all.take(i + 1).drop_last() =~= all.take(i as int));
            assert(all.take(i + 1).last() == lines@[i as int]@);
        }
        if found.is_none() {
            found = heading_of(&trimmed(&lines[i]));
        }
        i = i + 1;
    }
    proof {
        assert(all.take(all.len() as int) =~= all);
    }
    found
}

/// The text after the prefix, where it has it.
pub open spec fn after(s: Seq<char>, p: Seq<char>) -> Option<Seq<char>> {
    if starts(s, p) {
        Some(s.skip(p.len() as int))
    } else {
        None
    }
}

/// The text after a line end, where it starts with one.
pub open spec fn after_newline(s: Seq<char>) -> Option<Seq<char>> {
    if starts(s, "\r\n"@) {
        Some(s.skip(2))
    } else {
        after(s, "\n"@)
    }
}

/// What follows an opening fence: `---` and a line end.
pub open spec fn opened(s: Seq<char>) -> Option<Seq<char>> {
    match after(s, "---"@) {
        Some(rest) => after_newline(rest),
        None => None,
    }
}

/// What follows the fence on the line that starts at `s`.
pub open spec fn fence_rest(s: Seq<char>) -> Option<Seq<char>> {
    match after(s, "---"@) {
        Some(rest) => {
            let rest = if starts(rest, "\r"@) {
                rest.skip(1)
            } else {
                rest
            };
            if rest.len() == 0 {
                Some(rest)
            } else {
                after(rest, "\n"@)
            }
        },
        None => None,
    }
}

/// The line after the line end at `k` is a fence.
pub open spec fn fence_at(s: Seq<char>, k: int) -> bool {
    0 <= k < s.len() && s[k] == '\n' && fence_rest(s.skip(k + 1)) is Some
}

/// The first line end from `k` on that a fence follows, else -1.
pub open spec fn fence_from(s: Seq<char>, k: int) -> int
    decreases s.len() - k,
{
    if k >= s.len() {
        -1
    } else if fence_at(s, k) {
        k
    } else {
        fence_from(s, k + 1)
    }
}

/// The front matter and the body that a closing fence parts.
pub open spec fn parted(s: Seq<char>) -> Option<(Seq<char>, Seq<char>)> {
    match after(s, "---"@) {
        Some(rest) => match after_newline(rest) {
            Some(body) => Some((Seq::empty(), body)),
            None => Some((Seq::empty(), rest)),
        },
        None => {
            let k = fence_from(s, 0);
            if k >= 0 {
                Some((s.take(k), fence_rest(s.skip(k + 1))->0))
            } else {
                None
            }
        },
    }
}

/// What `s` holds from the position on.
fn rest_of(v: &Vec<char>, from: usize) -> (r: String)
    requires
        from <= v@.len(),
    ensures
        r@ == v@.skip(from as int),
{
    proof {
        assert(v@.subrange(from as int, v@.len() as int) =~= v@.skip(from as int));
    }
    string_range(v, from, v.len())
}

/// Whether `v` has the characters of `p` from the position on.
fn has_at(v: &Vec<char>, from: usize, p: &str) -> (r: bool)
    requires
        from <= v@.len(),
    ensures
        r == starts(v@.skip(from as int), p@),
{
    starts_with(&rest_of(v, from), p)
}

/// What follows an opening fence.
pub fn strip_open_fence(text: &str) -> (r: Option<String>)
    ensures
        opt_view(r) == opened(text@),
{
    let v = chars_of(text);
    proof {
        reveal_strlit("---");
        reveal_strlit("\r\n");
        reveal_strlit("\n");
    }
    if !starts_with(text, "---") {
        return None;
    }
    if has_at(&v, 3, "\r\n") {
        proof {
            assert(v@.skip(3).skip(2) =~= v@.skip(5));
        }
        Some(rest_of(&v, 5))
    } else if has_at(&v, 3, "\n") {
        proof {
            assert(v@.skip(3).skip(1) =~= v@.skip(4));
        }
        Some(rest_of(&v, 4))
    } else {
        None
    }
}

/// Start of what follows the fence on the line that starts at `from`.
fn fence_end(v: &Vec<char>, from: usize) -> (r: Option<usize>)
    requires
        from <= v@.len(),
    ensures
        match r {
            Some(n) => n <= v@.len() && fence_rest(v@.skip(from as int)) == Some(v@.skip(n as int)),
            None => fence_rest(v@.skip(from as int)) is None,
        },
{
    let size: usize = v.len();
    let ghost s = v@.skip(from as int);
    proof {
        reveal_strlit("---");
        reveal_strlit("\r");
        reveal_strlit("\n");
        assert(starts(s, "---"@) ==> s.len() >= 3);
    }
    if size - from < 3 || v[from] != '-' || v[from + 1] != '-' || v[from + 2] != '-' {
        proof {
            if starts(s, "---"@) {
                assert(s.take(3)[0] == '-' && s.take(3)[1] == '-' && s.take(3)[2] == '-');
                assert(s[0] == '-' && s[1] == '-' && s[2] == '-');
            }
        }
        return None;
    }
    proof {
        assert(s.take(3) =~= "---"@);
        assert(s.skip(3) =~= v@.skip(from + 3));
    }
    let mut n: usize = from + 3;
    let ghost t = v@.skip(n as int);
    if n < size && v[n] == '\r' {
        proof {
            assert(t.take(1) =~= "\r"@);
            assert(t.skip(1) =~= v@.skip(n + 1));
        }
        n = n + 1;
    } else {
        proof {
            if starts(t, "\r"@) {
                assert(t.take(1)[0] == '\r');
            }
        }
    }
    let ghost u = v@.skip(n as int);
    if n == size {
        return Some(n);
    }
    if v[n] == '\n' {
        proof {
            assert(u.take(1) =~= "\n"@);
            assert(u.skip(1) =~= v@.skip(n + 1));
        }
        Some(n + 1)
    } else {
        proof {
            if starts(u, "\n"@) {
                assert(u.take(1)[0] == '\n');
            }
        }
        None
    }
}

/// The front matter and the body that a closing fence parts.
pub fn split_close_fence(text: &str) -> (r: Option<(String, String)>)
    ensures
        match r {
            Some((a, b)) => parted(text@) == Some((a@, b@)),
            None => parted(text@) is None,
        },
{
    let v = chars_of(text);
    proof {
        reveal_strlit("---");
        reveal_strlit("\r\n");
        reveal_strlit("\n");
    }
    if starts_with(text, "---") {
        if has_at(&v, 3, "\r\n") {
            proof {
                assert(v@.skip(3).skip(2) =~= v@.skip(5));
            }
            return Some((String::new(), rest_of(&v, 5)));
        }
        if has_at(&v, 3, "\n") {
            proof {
                assert(v@.skip(3).skip(1) =~= v@.skip(4));
            }
            return Some((String::new(), rest_of(&v, 4)));
        }
        return Some((String::new(), rest_of(&v, 3)));
    }
    let mut k: usize = 0;
    while k < v.len()
        invariant
            k <= v@.len(),
            v@ == text@,
            !starts(text@, "---"@),
            fence_from(text@, 0) == fence_from(text@, k as int),
        decreases v.len() - k,
    {
        if v[k] == '\n' {
            if let Some(n) = fence_end(&v, k + 1) {
                proof {
                    assert(fence_at(text@, k as int));
                    assert(v@.subrange(0, k as int) =~= text@.take(k as int));
                }
                return Some((string_range(&v, 0, k), rest_of(&v, n)));
            }
        }
        k = k + 1;
    }
    None
}

/// The text in quotes, where it is quoted.
pub open spec fn unquoted(s: Seq<char>) -> Option<Seq<char>> {
    if s.len() >= 2 && (s[0] == '"' || s[0] == '\'') && s.last() == s[0] {
        Some(s.subrange(1, s.len() - 1))
    } else {
        None
    }
}

/// The value of a scalar in front matter.
pub open spec fn scalar(s: Seq<char>) -> Atom {
    if s.len() == 0 || s == "~"@ || s == "null"@ {
        Atom::Null
    } else if s == "true"@ {
        Atom::Bool(true)
    } else if s == "false"@ {
        Atom::Bool(false)
    } else if let Some(t) = unquoted(s) {
        Atom::Text(t)
    } else if let Some(n) = i64_value(s) {
        Atom::I64(n)
    } else {
        Atom::Text(s)
    }
}

/// The text in quotes, where it is quoted.
pub fn unquote_yaml(value: &str) -> (r: Option<String>)
    ensures
        opt_view(r) == unquoted(value@),
{
    let v = chars_of(value);
    let size: usize = v.len();
    if size >= 2 && (v[0] == '"' || v[0] == '\'') && v[size - 1] == v[0] {
        Some(string_range(&v, 1, size - 1))
    } else {
        None
    }
}

/// The value of a scalar in front matter.
pub fn parse_yaml_scalar(value: &str) -> (r: JsonAtom)
    ensures
        r@ == scalar(value@),
{
    if value.is_empty() || same_str(value, "~") || same_str(value, "null") {
        return JsonAtom::Null;
    }
    if same_str(value, "true") {
        return JsonAtom::Bool(true);
    }
    if same_str(value, "false") {
        return JsonAtom::Bool(false);
    }
    if let Some(t) = unquote_yaml(value) {
        return JsonAtom::String(t);
    }
    if let Some(n) = parse_i64(value) {
        return JsonAtom::I64(n);
    }
    JsonAtom::String(value.to_owned())
}

/// The key and value on a line of front matter. Blank lines, comments and
/// lines without a key have none.
pub open spec fn yaml_pair(line: Seq<char>) -> Option<(Seq<char>, Atom)> {
    let s = trim(line);
    let p = first_index(s, ':');
    let key = trim(s.take(p));
    if s.len() == 0 || s[0] == '#' || p >= s.len() || key.len() == 0 {
        None
    } else {
        Some((key, scalar(trim(s.skip(p + 1)))))
    }
}

/// The keys and values on lines of front matter.
pub open spec fn yaml_pairs(lines: Seq<Seq<char>>) -> Seq<(Seq<char>, Atom)>
    decreases lines.len(),
{
    if lines.len() == 0 {
        Seq::empty()
    } else {
        let m = yaml_pairs(lines.drop_last());
        match yaml_pair(lines.last()) {
            Some((key, value)) => placed(m, key, value),
            None => m,
        }
    }
}

/// The key and value on a line of front matter.
fn yaml_pair_of(line: &str) -> (r: Option<(String, JsonAtom)>)
    ensures
        match r {
            Some((key, value)) => yaml_pair(line@) == Some((key@, value@)),
            None => yaml_pair(line@) is None,
        },
{
    let s = trimmed(line);
    let v = chars_of(&s);
    let size: usize = v.len();
    if size == 0 || v[0] == '#' {
        return None;
    }
    let p = find_first(&v, ':');
    if p >= size {
        return None;
    }
    proof {
        assert(v@.subrange(0, p as int) =~= s@.take(p as int));
    }
    let key = trimmed(&string_range(&v, 0, p));
    if key.is_empty() {
        return None;
    }
    let value = trimmed(&rest_of(&v, p + 1));
    Some((key, parse_yaml_scalar(&value)))
}

/// The keys and values of front matter.
pub fn parse_simple_yaml(yaml: &str) -> (r: ExtraMap)
    ensures
        r@ == yaml_pairs(split_char(yaml@, '\n')),
{
    let lines = split_at_char(yaml, '\n');
    let ghost all = views(lines@);
    let mut out = ExtraMap::new();
    let mut i: usize = 0;
    proof {
        assert(all.take(0) =~= Seq::<Seq<char>>::empty());
    }
    while i < lines.len()
        invariant
            i <= lines@.len(),
            all == views(lines@),
            out@ == yaml_pairs(all.take(i as int)),
        decreases lines.len() - i,
    {
        proof {
            assert(all.take(i + 1).drop_last() =~= all.take(i as int));
            assert(all.take(i + 1).last() == lines@[i as int]@);
        }
        if let Some((key, value)) = yaml_pair_of(&lines[i]) {
            out.insert(key, value);
        }
        i = i + 1;
    }
    proof {
        assert(all.take(all.len() as int) =~= all);
    }
    out
}

/// Front matter and body of a Markdown text. Without both fences everything
/// is body.
pub open spec fn front_and_body(text: Seq<char>) -> (Seq<(Seq<char>, Atom)>, Seq<char>) {
    match opened(text) {
        Some(rest) => match parted(rest) {
            Some((yaml, body)) => (yaml_pairs(split_char(yaml, '\n')), body),
            None => (Seq::empty(), text),
        },
        None => (Seq::empty(), text),
    }
}

/// Front matter and body of a Markdown text.
pub fn split_frontmatter(text: &str) -> (r: (ExtraMap, String))
    ensures
        (r.0@, r.1@) == front_and_body(text@),
{
    match strip_open_fence(text) {
        Some(rest) => match split_close_fence(&rest) {
            Some((yaml, body)) => (parse_simple_yaml(&yaml), body),
            None => (ExtraMap::new(), text.to_owned()),
        },
        None => (ExtraMap::new(), text.to_owned()),
    }
}

/// `path` relative to `root`, with forward slashes. A path elsewhere stays.
pub open spec fn slashed_relative(root: Seq<char>, path: Seq<char>) -> Seq<char> {
    replace_char(relative(path, root), '\\', '/')
}

/// `path` relative to `root`, with forward slashes.
pub fn relative_to(root: &str, path: &str) -> (r: String)
    ensures
        r@ == slashed_relative(root@, path@),
{
    replaced(&status_label(root, path), '\\', '/')
}

/// Id of a Markdown file: its path relative to the root, or its name when
/// it is the root.
pub open spec fn file_id(root: Seq<char>, path: Seq<char>) -> Seq<char> {
    if components(root) == components(path) {
        match file_name(path) {
            Some(name) => name,
            None => path,
        }
    } else {
        slashed_relative(root, path)
    }
}

/// Id of a Markdown file.
pub fn markdown_id(root: &str, path: &str) -> (r: String)
    ensures
        r@ == file_id(root@, path@),
{
    if same_path(root, path) {
        match file_name_of(path) {
            Some(name) => name,
            None => path.to_owned(),
        }
    } else {
        relative_to(root, path)
    }
}

/// Title from the file name.
pub open spec fn stem_title(path: Seq<char>) -> Option<Seq<char>> {
    match file_name(path) {
        Some(name) => if name_stem(name).len() > 0 {
            Some(name_stem(name))
        } else {
            None
        },
        None => None,
    }
}

/// Title from the file name.
pub fn file_stem_title(path: &str) -> (r: Option<String>)
    ensures
        opt_view(r) == stem_title(path@),
{
    match file_name_of(path) {
        Some(name) => {
            let stem = stem_of_name(&name);
            if stem.is_empty() {
                None
            } else {
                Some(stem)
            }
        },
        None => None,
    }
}

/// The text of a Markdown file, and whether bytes had to be replaced.
pub open spec fn file_text(bytes: Seq<u8>) -> (Seq<char>, bool) {
    if vstd::utf8::valid_utf8(bytes) {
        (vstd::utf8::decode_utf8(bytes), false)
    } else {
        (lossy_text(bytes), true)
    }
}

/// Time of a file, as unix seconds.
pub open spec fn file_time(mtime: Option<u64>) -> Option<Stamp> {
    match mtime {
        Some(t) => Some(Stamp::Other(Atom::U64(t))),
        None => None,
    }
}

fn file_stamp(mtime: Option<u64>) -> (r: Option<Timestamp>)
    ensures
        opt_stamp(r) == file_time(mtime),
{
    match mtime {
        Some(t) => Some(Timestamp::Other(JsonAtom::U64(t))),
        None => None,
    }
}

/// The conversation that a Markdown text makes. `root` and `path` give its
/// id, `digest` is the tree root of the file.
pub open spec fn text_item(
    root: Seq<char>,
    path: Seq<char>,
    text: Seq<char>,
    replaced: bool,
    digest: Seq<u8>,
    mtime: Option<u64>,
) -> ItemView {
    let (yaml, body) = front_and_body(text);
    let base = if replaced {
        placed(Seq::empty(), "utf8_lossy"@, Atom::Bool(true))
    } else {
        Seq::empty()
    };
    let title = heading_in(split_char(body, '\n'));
    plain_item(
        ConversationView {
            id: Some(file_id(root, path)),
            title: if title is Some {
                title
            } else {
                stem_title(path)
            },
            create_time: file_time(mtime),
            modify_time: file_time(mtime),
            extra: union(base, yaml, true),
            ..empty_conversation()
        },
        seq![
            bare(
                ResponseView {
                    _id: Some(hex(digest)),
                    conversation_id: Some(file_id(root, path)),
                    message: Some(Atom::Text(body)),
                    create_time: file_time(mtime),
                    ..empty_response()
                },
            ),
        ],
    )
}

/// The conversation that a Markdown text makes.
pub fn markdown_text_item(
    root: &str,
    path: &str,
    text: &str,
    replaced: bool,
    bytes: &[u8],
    mtime: Option<u64>,
) -> (r: ConversationItem)
    ensures
        r@ == text_item(root@, path@, text@, replaced, root_of(bytes@), mtime),
{
    let digest = hash_bytes(bytes);
    let (yaml, body) = split_frontmatter(text);
    let mut base = ExtraMap::new();
    if replaced {
        base.insert("utf8_lossy".to_owned(), JsonAtom::Bool(true));
    }
    let extra = union_extra(base, yaml, true);
    let id = markdown_id(root, path);
    let title = match first_heading(&body) {
        Some(h) => Some(h),
        None => file_stem_title(path),
    };
    let conversation = Conversation {
        id: Some(id.clone()),
        title,
        create_time: file_stamp(mtime),
        modify_time: file_stamp(mtime),
        extra,
        ..Default::default()
    };
    let response = Response {
        _id: Some(digest.to_hex()),
        conversation_id: Some(id),
        message: Some(JsonAtom::String(body)),
        create_time: file_stamp(mtime),
        ..Default::default()
    };
    let mut responses: Vec<ResponseItem> = Vec::new();
    responses.push(bare_response(response));
    let r = ConversationItem { conversation, responses, extra: ExtraMap::new() };
    proof {
        let want = text_item(root@, path@, text@, replaced, root_of(bytes@), mtime);
        assert(r@.responses =~= want.responses);
        assert(r@.conversation =~= want.conversation);
    }
    r
}

/// The conversation that a Markdown file makes.
pub fn markdown_item(root: &str, path: &str, bytes: &[u8], mtime: Option<u64>) -> (r:
    ConversationItem)
    ensures
        r@ == text_item(
            root@,
            path@,
            file_text(bytes@).0,
            file_text(bytes@).1,
            root_of(bytes@),
            mtime,
        ),
{
    match utf8_text(bytes) {
        Some(s) => {
            proof {
                vstd::utf8::encode_utf8_decode_utf8(s@);
            }
            markdown_text_item(root, path, s, false, bytes, mtime)
        },
        None => {
            let text = lossy(bytes);
            markdown_text_item(root, path, &text, true, bytes, mtime)
        },
    }
}

/// `n` number signs.
pub open spec fn signs(n: nat) -> Seq<char> {
    Seq::new(n, |i: int| '#')
}

proof fn lemma_leading(n: nat, rest: Seq<char>)
    requires
        rest.len() == 0 || rest[0] != '#',
    ensures
        leading(signs(n) + rest, '#') == n,
    decreases n,
{
    let s = signs(n) + rest;
    if n == 0 {
        assert(s =~= rest);
    } else {
        lemma_leading((n - 1) as nat, rest);
        assert(s.drop_first() =~= signs((n - 1) as nat) + rest);
    }
}

/// A heading is a line with one to six number signs and a text behind them.
/// More signs, or none, make no heading.
pub proof fn law_heading(n: nat, text: Seq<char>)
    requires
        text.len() > 0,
        !is_white(text[0]) && text[0] != '#',
        !is_white(text[text.len() - 1]) && text[text.len() - 1] != '#',
    ensures
        1 <= n <= 6 ==> heading(signs(n) + seq![' '] + text) == Some(text),
        1 <= n <= 6 ==> heading(signs(n) + seq![' '] + text + seq![' ', '#']) == Some(text),
        n == 0 || n > 6 ==> heading(signs(n) + seq![' '] + text) is None,
        heading(text) is None,
{
    let none = Seq::<char>::empty();
    let gap = seq![' '];
    lemma_leading(n, gap + text);
    lemma_leading(0, text);
    assert(signs(0) + text =~= text);
    let line = signs(n) + gap + text;
    assert(line =~= signs(n) + (gap + text));
    assert(line.skip(n as int) =~= gap + text + none);
    law_trim(gap, text, none);
    law_trim(none, text, none);
    assert(none + text + none =~= text);
    assert(text.last() == text[text.len() - 1]);
    assert(trim_end_char(text, '#') == text);
    let tail = text + seq![' ', '#'];
    let closed = line + seq![' ', '#'];
    lemma_leading(n, gap + tail);
    assert(closed =~= signs(n) + (gap + tail));
    assert(closed.skip(n as int) =~= gap + tail + none);
    assert(tail.last() == '#');
    assert(tail[tail.len() - 1] == '#');
    law_trim(gap, tail, none);
    assert(tail.drop_last() =~= text + gap);
    assert((text + gap).last() == ' ');
    reveal_with_fuel(trim_end_char, 2);
    assert(trim_end_char(tail, '#') == text + gap);
    law_trim(none, text, gap);
    assert(none + text + gap =~= text + gap);
}

/// The heading of a text is that of its first line that is one.
pub proof fn law_first_heading(lines: Seq<Seq<char>>, k: int, n: nat, text: Seq<char>)
    requires
        0 <= k < lines.len(),
        1 <= n <= 6,
        text.len() > 0,
        !is_white(text[0]) && text[0] != '#',
        !is_white(text[text.len() - 1]) && text[text.len() - 1] != '#',
        lines[k] == signs(n) + seq![' '] + text,
        forall|j: int|
            0 <= j < k ==> (#[trigger] lines[j]).len() == 0 || (lines[j][0] != '#' && !is_white(
                lines[j][0],
            )),
    ensures
        heading_in(lines) == Some(text),
    decreases lines.len(),
{
    let init = lines.drop_last();
    if k < lines.len() - 1 {
        assert(forall|j: int| 0 <= j < init.len() ==> #[trigger] init[j] == lines[j]);
        law_first_heading(init, k, n, text);
    } else {
        assert(forall|j: int| 0 <= j < init.len() ==> #[trigger] init[j] == lines[j]);
        lemma_no_heading(init);
        law_heading(n, text);
        let none = Seq::<char>::empty();
        let line = lines[k];
        assert(line[0] == '#');
        assert(line[line.len() - 1] == text[text.len() - 1]);
        law_trim(none, line, none);
        assert(none + line + none =~= line);
    }
}

proof fn lemma_no_heading(lines: Seq<Seq<char>>)
    requires
        forall|j: int|
            0 <= j < lines.len() ==> (#[trigger] lines[j]).len() == 0 || (lines[j][0] != '#'
                && !is_white(lines[j][0])),
    ensures
        heading_in(lines) is None,
    decreases lines.len(),
{
    if lines.len() > 0 {
        let init = lines.drop_last();
        assert(forall|j: int| 0 <= j < init.len() ==> #[trigger] init[j] == lines[j]);
        lemma_no_heading(init);
        let line = lines[lines.len() - 1];
        assert(line.len() == 0 || line[0] != '#');
        lemma_trim_keeps_first(line);
    }
}

proof fn lemma_trim_keeps_first(s: Seq<char>)
    requires
        s.len() == 0 || !is_white(s[0]),
    ensures
        s.len() == 0 ==> trim(s).len() == 0,
        s.len() > 0 ==> trim(s).len() > 0 && trim(s)[0] == s[0],
    decreases s.len(),
{
    assert(trim_start(s) == s);
    if s.len() > 0 {
        lemma_trim_end_keeps_first(s);
    }
}

proof fn lemma_trim_end_keeps_first(s: Seq<char>)
    requires
        s.len() > 0,
        !is_white(s[0]),
    ensures
        trim_end(s).len() > 0,
        trim_end(s)[0] == s[0],
    decreases s.len(),
{
    if is_white(s.last()) {
        let init = s.drop_last();
        assert(init.len() > 0);
        assert(init[0] == s[0]);
        lemma_trim_end_keeps_first(init);
    }
}

/// Front matter stands between two lines of three dashes. What follows the
/// second is the body. A text that does not open so is all body.
pub proof fn law_front_matter(yaml: Seq<char>, body: Seq<char>)
    requires
        forall|k: int|
            0 <= k && k + 3 < yaml.len() && #[trigger] yaml[k] == '\n' ==> !(yaml[k + 1] == '-'
                && yaml[k + 2] == '-' && yaml[k + 3] == '-'),
        !(yaml.len() >= 3 && yaml[0] == '-' && yaml[1] == '-' && yaml[2] == '-'),
    ensures
        front_and_body(
            seq!['-', '-', '-', '\n'] + yaml + seq!['\n', '-', '-', '-', '\n'] + body,
        ) == (yaml_pairs(split_char(yaml, '\n')), body),
        !(body.len() >= 3 && body[0] == '-' && body[1] == '-' && body[2] == '-') ==> front_and_body(
            body,
        ) == (Seq::<(Seq<char>, Atom)>::empty(), body),
{
    reveal_strlit("---");
    reveal_strlit("\r\n");
    reveal_strlit("\n");
    reveal_strlit("\r");
    let (open, close) = (seq!['-', '-', '-', '\n'], seq!['\n', '-', '-', '-', '\n']);
    let text = open + yaml + close + body;
    let s = yaml + close + body;
    assert("---"@ =~= seq!['-', '-', '-']);
    assert("\n"@ =~= seq!['\n']);
    assert(text.take(3) =~= "---"@);
    let rest = text.skip(3);
    assert(rest[0] == '\n');
    assert(!starts(rest, "\r\n"@)) by {
        if starts(rest, "\r\n"@) {
            assert(rest.take(2)[0] == rest[0]);
        }
    }
    assert(rest.take(1) =~= "\n"@);
    assert(rest.skip(1) =~= s);
    assert(!starts(s, "---"@)) by {
        if starts(s, "---"@) {
            let t = s.take(3);
            assert(t[0] == s[0] && t[1] == s[1] && t[2] == s[2]);
            if yaml.len() < 3 {
                assert(s[yaml.len() as int] == '\n');
            }
        }
    }
    let n = yaml.len() as int;
    assert forall|k: int| 0 <= k < n implies !fence_at(s, k) by {
        if s[k] == '\n' && starts(s.skip(k + 1), "---"@) {
            let t = s.skip(k + 1).take(3);
            assert(t[0] == s[k + 1] && t[1] == s[k + 2] && t[2] == s[k + 3]);
            assert(yaml[k] == '\n');
            if k + 3 >= n {
                assert(s[n] == '\n');
            }
        }
    }
    let after_fence = s.skip(n + 1);
    assert(after_fence.take(3) =~= "---"@);
    let more = after_fence.skip(3);
    assert(more[0] == '\n');
    assert(!starts(more, "\r"@)) by {
        if starts(more, "\r"@) {
            assert(more.take(1)[0] == more[0]);
        }
    }
    assert(more.take(1) =~= "\n"@);
    assert(more.skip(1) =~= body);
    assert(fence_at(s, n));
    lemma_fence_from(s, 0, n);
    assert(s.take(n) =~= yaml);
    if !(body.len() >= 3 && body[0] == '-' && body[1] == '-' && body[2] == '-') {
        if starts(body, "---"@) {
            let t = body.take(3);
            assert(t[0] == body[0] && t[1] == body[1] && t[2] == body[2]);
        }
    }
}

proof fn lemma_fence_from(s: Seq<char>, i: int, n: int)
    requires
        0 <= i <= n < s.len(),
        fence_at(s, n),
        forall|k: int| i <= k < n ==> !#[trigger] fence_at(s, k),
    ensures
        fence_from(s, i) == n,
    decreases n - i,
{
    if i < n {
        assert(!fence_at(s, i));
        lemma_fence_from(s, i + 1, n);
    }
}

/// A line `key: value` is that pair. Comments and lines without a colon are
/// none.
pub proof fn law_yaml_line(key: Seq<char>, value: Seq<char>, line: Seq<char>)
    requires
        key.len() > 0 && !is_white(key[0]) && !is_white(key[key.len() - 1]) && key[0] != '#',
        !key.contains(':'),
        value.len() > 0 && !is_white(value[0]) && !is_white(value[value.len() - 1]),
    ensures
        yaml_pair(key + seq![':', ' '] + value) == Some((key, scalar(value))),
        line.len() > 0 && line[0] == '#' ==> yaml_pair(line) is None,
        yaml_pair(key) is None,
{
    let none = Seq::<char>::empty();
    let s = key + seq![':', ' '] + value;
    let n = key.len() as int;
    law_trim(none, s, none);
    assert(none + s + none =~= s);
    law_places(s, ':');
    assert(s[n] == ':');
    assert(first_index(s, ':') >= n) by {
        let p = first_index(s, ':');
        assert(s.contains(s[n]));
        if p < n {
            assert(key.contains(key[p]));
        }
    }
    assert(s.take(n) =~= key);
    law_trim(none, key, none);
    assert(none + key + none =~= key);
    let gap = seq![' '];
    assert(s.skip(n + 1) =~= gap + value + none);
    law_trim(gap, value, none);
    law_places(key, ':');
    if line.len() > 0 && line[0] == '#' {
        lemma_trim_keeps_first(line);
    }
}

/// A later line puts its value under its key. The other keys keep theirs.
pub proof fn law_yaml_lines(lines: Seq<Seq<char>>, key: Seq<char>, value: Seq<char>, other: Seq<char>)
    requires
        key.len() > 0 && !is_white(key[0]) && !is_white(key[key.len() - 1]) && key[0] != '#',
        !key.contains(':'),
        value.len() > 0 && !is_white(value[0]) && !is_white(value[value.len() - 1]),
    ensures
        lookup(yaml_pairs(lines.push(key + seq![':', ' '] + value)), key) == Some(scalar(value)),
        other != key ==> lookup(yaml_pairs(lines.push(key + seq![':', ' '] + value)), other)
            == lookup(yaml_pairs(lines), other),
{
    law_yaml_line(key, value, key);
    let line = key + seq![':', ' '] + value;
    assert(lines.push(line).drop_last() =~= lines);
    law_placed_is_found(yaml_pairs(lines), key, scalar(value), key);
    law_placed_is_found(yaml_pairs(lines), key, scalar(value), other);
}

/// What a scalar is: null, a truth value, a quoted text, a whole number or a
/// text.
pub proof fn law_scalar(s: Seq<char>, v: i64)
    ensures
        scalar(Seq::empty()) == Atom::Null,
        scalar("~"@) == Atom::Null,
        scalar("null"@) == Atom::Null,
        scalar("true"@) == Atom::Bool(true),
        scalar("false"@) == Atom::Bool(false),
        scalar(seq!['"'] + s + seq!['"']) == Atom::Text(s),
        scalar(seq!['\''] + s + seq!['\'']) == Atom::Text(s),
        scalar(decimal_int(v as int)) == Atom::I64(v),
        s.len() > 0 && 'A' <= s[0] <= 'Z' ==> scalar(s) == Atom::Text(s),
{
    reveal_strlit("~");
    reveal_strlit("null");
    reveal_strlit("true");
    reveal_strlit("false");
    assert("~"@[0] == '~' && "null"@[0] == 'n' && "true"@[0] == 't' && "false"@[0] == 'f');
    let (a, b) = (seq!['"'] + s + seq!['"'], seq!['\''] + s + seq!['\'']);
    assert(a[0] == '"' && b[0] == '\'' && a.last() == '"' && b.last() == '\'');
    assert(a.subrange(1, a.len() - 1) =~= s);
    assert(b.subrange(1, b.len() - 1) =~= s);
    law_parse_reads_decimal(v as int);
    let n = if v < 0 {
        (-(v as int)) as nat
    } else {
        v as nat
    };
    law_decimal(n);
    let d = decimal_int(v as int);
    assert(d[0] == '-' || '0' <= d[0] <= '9');
    if s.len() > 0 && 'A' <= s[0] <= 'Z' {
        law_parse_refuses_the_rest(s);
    }
}

/// A note is its body, under its first heading, else under its file name. Its
/// time is that of the file.
pub proof fn law_note_says_its_body(
    root: Seq<char>,
    path: Seq<char>,
    text: Seq<char>,
    digest: Seq<u8>,
    mtime: u64,
)
    ensures
        says(text_item(root, path, text, false, digest, Some(mtime)), seq![front_and_body(text).1]),
        ({
            let item = text_item(root, path, text, false, digest, Some(mtime));
            let first = heading_in(split_char(front_and_body(text).1, '\n'));
            &&& first is Some ==> item.conversation.title == first
            &&& first is None && file_name(path) is Some && name_stem(file_name(path)->0).len() > 0
                ==> item.conversation.title == Some(name_stem(file_name(path)->0))
            &&& item.conversation.modify_time == Some(Stamp::Other(Atom::U64(mtime)))
            &&& item.conversation.create_time == Some(Stamp::Other(Atom::U64(mtime)))
            &&& item.responses[0].response.conversation_id == item.conversation.id
            &&& components(root) == components(path) && file_name(path) is Some
                ==> item.conversation.id == file_name(path)
        }),
        text_item(root, path, text, false, digest, None).conversation.modify_time is None,
{
}

} // verus!
