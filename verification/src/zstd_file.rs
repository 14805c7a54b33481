//! Compressed archives: zstd frames and their names. Compression keeps its
//! input.
use vstd::prelude::*;

use crate::paths::{
    components, extension, extension_of, file_name, file_name_of, joined, keeps, law_joined_name,
    law_name_and_extension, lemma_split_before, opt_view, plain_name,
};
use crate::text::{
    cat, chars_of, either, eq_ascii, find_last, last_index, law_places, lemma_split_nonempty, lower,
    same_ascii, split_char, string_range,
};
use crate::{Error, IoKind};

verus! {

/// Default level of compression. There is no dictionary.
pub const COMPRESS_LEVEL: i32 = 3;

/// Magic of a zstd frame.
pub const ZSTD_MAGIC: [u8; 4] = [0x28, 0xB5, 0x2F, 0xFD];

/// What `zstd::stream::decode_all` reads from a frame, or its error message.
pub uninterp spec fn zstd_decoded(bytes: Seq<u8>) -> Result<Seq<u8>, Seq<char>>;

/// What `zstd::stream::encode_all` writes at a level, or its error message.
pub uninterp spec fn zstd_encoded(bytes: Seq<u8>, level: i32) -> Result<Seq<u8>, Seq<char>>;

/// Calls `zstd::stream::encode_all`. The frame and the message of an error
/// are functions of the bytes and the level, and the frame decodes to the
/// bytes.
#[verifier::external_body]
fn encode_frame(bytes: &[u8], level: i32) -> (r: Result<Vec<u8>, String>)
    ensures
        match r {
            Ok(v) => zstd_encoded(bytes@, level) == Ok::<Seq<u8>, Seq<char>>(v@) && zstd_decoded(v@)
                == Ok::<Seq<u8>, Seq<char>>(bytes@),
            Err(e) => zstd_encoded(bytes@, level) == Err::<Seq<u8>, Seq<char>>(e@),
        },
{
    zstd::stream::encode_all(bytes, level).map_err(|error| error.to_string())
}

/// Calls `zstd::stream::decode_all`. What it reads and the message of an
/// error are functions of the bytes.
#[verifier::external_body]
fn decode_frame(bytes: &[u8]) -> (r: Result<Vec<u8>, String>)
    ensures
        match r {
            Ok(v) => zstd_decoded(bytes@) == Ok::<Seq<u8>, Seq<char>>(v@),
            Err(e) => zstd_decoded(bytes@) == Err::<Seq<u8>, Seq<char>>(e@),
        },
{
    zstd::stream::decode_all(bytes).map_err(|error| error.to_string())
}

/// A file to write.
#[derive(Debug)]
pub struct NamedFile {
    pub path: String,
    pub bytes: Vec<u8>,
}

/// A path with the extension `zst`.
pub open spec fn zst_path(path: Seq<char>) -> bool {
    match extension(path) {
        Some(ext) => same_ascii(ext, "zst"@),
        None => false,
    }
}

fn file_name_has_zst_extension(path: &str) -> (r: bool)
    ensures
        r == zst_path(path@),
{
    match extension_of(path) {
        Some(ext) => eq_ascii(ext.as_str(), "zst"),
        None => false,
    }
}

/// `r` is the compressed copy of a file: `.zst` is added to its name.
pub open spec fn is_compressed(
    src: Seq<char>,
    bytes: Seq<u8>,
    level: i32,
    r: Result<NamedFile, Error>,
) -> bool {
    match r {
        Ok(f) => {
            &&& !zst_path(src)
            &&& f.path@ == src + ".zst"@
            &&& zstd_encoded(bytes, level) == Ok::<Seq<u8>, Seq<char>>(f.bytes@)
            &&& zstd_decoded(f.bytes@) == Ok::<Seq<u8>, Seq<char>>(bytes)
        },
        Err(Error::InvalidParams(m)) => zst_path(src) && m@ == src + " is already a .zst file"@,
        Err(Error::Ingest(m)) => !zst_path(src) && (zstd_encoded(bytes, level) matches Err(e) && m@
            == "zstd encoder: "@ + e),
        Err(_) => false,
    }
}

/// The compressed copy of a file at the default level. A compressed file is
/// refused.
pub fn compress_to_zst(src: &str, bytes: &[u8]) -> (r: Result<NamedFile, Error>)
    ensures
        is_compressed(src@, bytes@, 3, r),
{
    compress_to_zst_with_level(src, bytes, COMPRESS_LEVEL)
}

/// The compressed copy of a file. A compressed file is refused.
pub fn compress_to_zst_with_level(src: &str, bytes: &[u8], level: i32) -> (r: Result<
    NamedFile,
    Error,
>)
    ensures
        is_compressed(src@, bytes@, level, r),
{
    if file_name_has_zst_extension(src) {
        return Err(Error::InvalidParams(cat(src, " is already a .zst file")));
    }
    match encode_frame(bytes, level) {
        Ok(frame) => Ok(NamedFile { path: cat(src, ".zst"), bytes: frame }),
        Err(e) => Err(Error::Ingest(cat("zstd encoder: ", e.as_str()))),
    }
}

/// A name without its `.zst`. The rest is not empty.
pub open spec fn without_zst(name: Seq<char>) -> Option<Seq<char>> {
    let dot = last_index(name, '.');
    if dot > 0 && same_ascii(name.skip(dot + 1), "zst"@) {
        Some(name.take(dot))
    } else {
        None
    }
}

fn strip_zst_suffix(name: &str) -> (r: Option<String>)
    ensures
        opt_view(r) == without_zst(name@),
{
    let v = chars_of(name);
    match find_last(&v, '.') {
        Some(dot) => {
            proof {
                assert(v@.subrange(dot + 1, v@.len() as int) =~= name@.skip(dot + 1));
                assert(v@.subrange(0, dot as int) =~= name@.take(dot as int));
            }
            let ext = string_range(&v, dot + 1, v.len());
            if dot > 0 && eq_ascii(ext.as_str(), "zst") {
                Some(string_range(&v, 0, dot))
            } else {
                None
            }
        },
        None => None,
    }
}

/// `path` with its last component replaced. What stands before the last
/// component stays as it is written.
pub open spec fn renamed(path: Seq<char>, name: Seq<char>) -> Seq<char> {
    path.take(last_index(path, '/') + 1) + name
}

/// The decompressed file of `src`, when `src` is compressed.
pub open spec fn plain_path(src: Seq<char>) -> Option<Seq<char>> {
    match file_name(src) {
        Some(name) => match without_zst(name) {
            Some(stem) => Some(renamed(src, stem)),
            None => None,
        },
        None => None,
    }
}

/// The plain copy of a compressed file: `.zst` is taken from its name.
/// Another file is refused.
pub fn decompress_zst(src: &str, bytes: &[u8]) -> (r: Result<NamedFile, Error>)
    ensures
        match r {
            Ok(f) => plain_path(src@) == Some(f.path@) && zstd_decoded(bytes@) == Ok::<
                Seq<u8>,
                Seq<char>,
            >(f.bytes@),
            Err(Error::InvalidParams(m)) => plain_path(src@) is None && m@ == src@
                + " is not a .zst file; pass FILE.zst"@,
            Err(Error::Io(k, m)) => plain_path(src@) is Some && k == IoKind::Other && zstd_decoded(
                bytes@,
            ) == Err::<Seq<u8>, Seq<char>>(m@),
            Err(_) => false,
        },
{
    let path = match decompress_target(src) {
        Some(p) => p,
        None => {
            return Err(Error::InvalidParams(cat(src, " is not a .zst file; pass FILE.zst")));
        },
    };
    match decode_frame(bytes) {
        Ok(plain) => Ok(NamedFile { path, bytes: plain }),
        Err(e) => Err(Error::Io(IoKind::Other, e)),
    }
}

fn decompress_target(src: &str) -> (r: Option<String>)
    ensures
        opt_view(r) == plain_path(src@),
{
    match file_name_of(src) {
        Some(name) => match strip_zst_suffix(name.as_str()) {
            Some(stem) => {
                let v = chars_of(src);
                let size: usize = v.len();
                let cut: usize = match find_last(&v, '/') {
                    Some(i) => i + 1,
                    None => 0,
                };
                let head = string_range(&v, 0, cut);
                proof {
                    assert(v@.subrange(0, cut as int) =~= src@.take(cut as int));
                }
                Some(cat(head.as_str(), stem.as_str()))
            },
            None => None,
        },
        None => None,
    }
}

/// What is compressed comes back by decompression, under its name.
pub proof fn law_compression_is_undone(
    src: Seq<char>,
    bytes: Seq<u8>,
    level: i32,
    f: NamedFile,
)
    requires
        src.len() > 0,
        src.last() != '/',
        is_compressed(src, bytes, level, Ok(f)),
    ensures
        plain_path(f.path@) == Some(src),
        zstd_decoded(f.bytes@) == Ok::<Seq<u8>, Seq<char>>(bytes),
{
    law_names_come_back(src);
}

/// Decompression gives the name back that compression started from.
pub proof fn law_names_come_back(src: Seq<char>)
    requires
        src.len() > 0,
        src.last() != '/',
    ensures
        plain_path(src + ".zst"@) == Some(src),
{
    let c = '/';
    let t = ".zst"@;
    let dst = src + t;
    reveal_strlit(".zst");
    reveal_strlit("zst");
    assert(!t.contains(c));
    lemma_split_before(src, c, t);
    lemma_split_nonempty(src, either(c, c));
    let x = split_char(src, c);
    let y = split_char(dst, c);
    let name = x.last() + t;
    let k = keeps();
    assert(y =~= x.drop_last() + seq![name]);
    Seq::filter_distributes_over_add(x.drop_last(), seq![name], k);
    assert(seq![name].filter(k) =~= seq![name]) by {
        reveal_with_fuel(Seq::filter, 2);
        assert(seq![name].drop_last() =~= Seq::<Seq<char>>::empty());
    }
    assert(y.filter(k) =~= x.drop_last().filter(k) + seq![name]);
    assert(components(dst).last() == name);
    assert(file_name(dst) == Some(name));
    let dot = x.last().len() as int;
    lemma_last_piece(src, c);
    assert(x.last().len() > 0) by {
        if x.last().len() == 0 {
            assert(src.last() == c);
        }
    }
    lemma_last_index(name, '.', dot);
    assert(name.skip(dot + 1) =~= "zst"@);
    assert(name.take(dot) =~= x.last());
    let cut = last_index(src, c);
    lemma_last_index_before(src, c, t);
    assert(dst.take(cut + 1) =~= src.take(cut + 1));
    assert(src.take(cut + 1) + x.last() =~= src);
}

/// The last occurrence of a character.
proof fn lemma_last_index(s: Seq<char>, c: char, i: int)
    requires
        0 <= i < s.len(),
        s[i] == c,
        forall|j: int| i < j < s.len() ==> s[j] != c,
    ensures
        last_index(s, c) == i,
    decreases s.len(),
{
    if i < s.len() - 1 {
        assert(s[s.len() - 1] != c);
        lemma_last_index(s.drop_last(), c, i);
    }
}

/// Text without a character does not move its last occurrence.
proof fn lemma_last_index_before(a: Seq<char>, c: char, t: Seq<char>)
    requires
        !t.contains(c),
    ensures
        last_index(a + t, c) == last_index(a, c),
    decreases t.len(),
{
    if t.len() == 0 {
        assert(a + t =~= a);
    } else {
        let t0 = t.drop_last();
        assert(!t0.contains(c)) by {
            if t0.contains(c) {
                let k = choose|k: int| 0 <= k < t0.len() && t0[k] == c;
                assert(t[k] == c);
            }
        }
        assert(t[t.len() - 1] == t.last());
        assert((a + t).drop_last() =~= a + t0);
        lemma_last_index_before(a, c, t0);
    }
}

/// The last piece of a split is what follows the last separator.
proof fn lemma_last_piece(s: Seq<char>, c: char)
    ensures
        -1 <= last_index(s, c) < s.len(),
        split_char(s, c).last() == s.skip(last_index(s, c) + 1),
        last_index(s, c) >= 0 ==> s[last_index(s, c)] == c,
    decreases s.len(),
{
    let cut = either(c, c);
    if s.len() == 0 {
        assert(split_char(s, c).last() =~= s.skip(0));
    } else {
        lemma_last_piece(s.drop_last(), c);
        lemma_split_nonempty(s.drop_last(), cut);
        if s.last() == c {
            assert(split_char(s, c).last() =~= s.skip(s.len() as int));
        } else {
            let i = last_index(s.drop_last(), c);
            assert(s.drop_last().skip(i + 1).push(s.last()) =~= s.skip(i + 1));
        }
    }
}

/// A path is compressed by its extension, in either case.
pub proof fn law_zst_path(dir: Seq<char>, stem: Seq<char>, ext: Seq<char>)
    requires
        stem.len() > 0,
        !ext.contains('.'),
        plain_name(stem + seq!['.'] + ext),
    ensures
        zst_path(joined(dir, stem + seq!['.'] + ext)) <==> lower(ext) == lower("zst"@),
        without_zst(stem + seq!['.'] + ext) == if lower(ext) == lower("zst"@) {
            Some(stem)
        } else {
            None
        },
{
    let name = stem + seq!['.'] + ext;
    law_joined_name(dir, name);
    law_name_and_extension(stem, ext);
    law_places(name, '.');
    let n = stem.len() as int;
    assert(name[n] == '.');
    assert(name.contains(name[n]));
    let p = last_index(name, '.');
    if p > n {
        assert(ext.contains(ext[p - n - 1]));
    }
    assert(name.take(n) =~= stem);
    assert(name.skip(n + 1) =~= ext);
}

} // verus!
