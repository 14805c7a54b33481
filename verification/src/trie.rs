//! Tries region: two finite-state maps from words to posting lists, one of
//! the words as they stand and one of their lower case.
//!
//! Layout (little-endian): magic `MAJTRIES`, version 1, header length 80,
//! four offset and length pairs, then the two maps and the two packed
//! posting lists, each at a multiple of 8.
use vstd::prelude::*;

use crate::bytes::{
    le32, le64, lemma_le32, lemma_le64, lemma_le_len, lemma_opens, lemma_prefix_range, put_bytes,
    put_u32, put_u64, put_zeros, read_u32, read_u64, same_bytes, u32_at, u64_at, zeros,
};
use crate::order::bytes_before;
use crate::Error;

verus! {

/// Magic of the tries region.
pub const TRIES_MAGIC: [u8; 8] = [77, 65, 74, 84, 82, 73, 69, 83];

/// Layout version of the tries region.
pub const TRIES_VERSION: u32 = 1;

/// Header size of the tries region.
pub const TRIES_HEADER_LEN: usize = 80;

/// One occurrence of a word: which span, and where in it.
#[derive(Clone, Copy, Debug, PartialEq, Eq, Structural)]
pub struct Hit {
    pub span_index: u32,
    pub byte_off: u32,
}

/// Places of the four parts of a tries region.
#[derive(Clone, Copy, Debug, PartialEq, Eq, Structural)]
pub struct TriesHeader {
    pub cs_fst_off: usize,
    pub cs_fst_len: usize,
    pub ci_fst_off: usize,
    pub ci_fst_len: usize,
    pub cs_post_off: usize,
    pub cs_post_len: usize,
    pub ci_post_off: usize,
    pub ci_post_len: usize,
}

/// The part whose offset and length stand at `at` lies inside the region.
pub open spec fn part_fits(t: Seq<u8>, at: int) -> bool {
    u64_at(t, at) + u64_at(t, at + 8) <= t.len()
}

/// The part whose offset and length stand at `at`.
pub open spec fn part_at(t: Seq<u8>, at: int) -> Seq<u8> {
    t.subrange(u64_at(t, at) as int, u64_at(t, at) + u64_at(t, at + 8))
}

/// A tries region that opens.
pub open spec fn tries_valid(t: Seq<u8>) -> bool {
    &&& t.len() >= TRIES_HEADER_LEN
    &&& t.take(8) == TRIES_MAGIC@
    &&& u32_at(t, 8) == TRIES_VERSION
    &&& u32_at(t, 12) == TRIES_HEADER_LEN
    &&& part_fits(t, 16)
    &&& part_fits(t, 32)
    &&& part_fits(t, 48)
    &&& part_fits(t, 64)
}

/// Offset and length at `at`, when they describe a part of the region.
fn read_part(tries: &[u8], at: usize) -> (r: Option<(usize, usize)>)
    requires
        at + 16 <= tries@.len(),
    ensures
        match r {
            Some(p) => part_fits(tries@, at as int) && p.0 == u64_at(tries@, at as int) && p.1
                == u64_at(tries@, at + 8),
            None => !part_fits(tries@, at as int),
        },
{
    let size: usize = tries.len();
    match (read_u64(tries, at), read_u64(tries, at + 8)) {
        (Some(off), Some(len)) => {
            if len > size as u64 || off > size as u64 - len {
                None
            } else {
                Some((off as usize, len as usize))
            }
        },
        _ => None,
    }
}

impl TriesHeader {
    /// Reads the header of a tries region.
    pub fn parse(tries: &[u8]) -> (r: Result<TriesHeader, Error>)
        ensures
            match r {
                Ok(h) => tries_valid(tries@) && h.cs_fst_off == u64_at(tries@, 16) && h.cs_fst_len
                    == u64_at(tries@, 24) && h.ci_fst_off == u64_at(tries@, 32) && h.ci_fst_len
                    == u64_at(tries@, 40) && h.cs_post_off == u64_at(tries@, 48) && h.cs_post_len
                    == u64_at(tries@, 56) && h.ci_post_off == u64_at(tries@, 64) && h.ci_post_len
                    == u64_at(tries@, 72),
                Err(e) => !tries_valid(tries@) && e == Error::InvalidTries,
            },
    {
        if tries.len() < TRIES_HEADER_LEN {
            return Err(Error::InvalidTries);
        }
        let magic = vstd::slice::slice_subrange(tries, 0, 8);
        proof {
            assert(tries@.subrange(0, 8) =~= tries@.take(8));
        }
        if !same_bytes(magic, &TRIES_MAGIC) {
            return Err(Error::InvalidTries);
        }
        match (read_u32(tries, 8), read_u32(tries, 12)) {
            (Some(version), Some(header_len)) => {
                if version != TRIES_VERSION || header_len != 80 {
                    return Err(Error::InvalidTries);
                }
            },
            _ => {
                return Err(Error::InvalidTries);
            },
        }
        match (
            read_part(tries, 16),
            read_part(tries, 32),
            read_part(tries, 48),
            read_part(tries, 64),
        ) {
            (Some(a), Some(b), Some(c), Some(d)) => Ok(
                TriesHeader {
                    cs_fst_off: a.0,
                    cs_fst_len: a.1,
                    ci_fst_off: b.0,
                    ci_fst_len: b.1,
                    cs_post_off: c.0,
                    cs_post_len: c.1,
                    ci_post_off: d.0,
                    ci_post_len: d.1,
                },
            ),
            _ => Err(Error::InvalidTries),
        }
    }
}

/// Accepts a tries region that opens.
pub fn validate_tries_header(tries: &[u8]) -> (r: Result<(), Error>)
    ensures
        match r {
            Ok(_) => tries_valid(tries@),
            Err(e) => !tries_valid(tries@) && e == Error::InvalidTries,
        },
{
    match TriesHeader::parse(tries) {
        Ok(_) => Ok(()),
        Err(e) => Err(e),
    }
}

/// Zero bytes up to the next multiple of 8.
pub open spec fn pad8(n: int) -> int {
    (8 - n % 8) % 8
}

/// `part` after `buf`, at a multiple of 8.
pub open spec fn append8(buf: Seq<u8>, part: Seq<u8>) -> Seq<u8> {
    buf + zeros(pad8(buf.len() as int) as nat) + part
}

/// Header of a tries region with parts at these places.
pub open spec fn tries_header(h: TriesHeader) -> Seq<u8> {
    TRIES_MAGIC@ + le32(TRIES_VERSION) + le32(TRIES_HEADER_LEN as u32) + le64(h.cs_fst_off as u64)
        + le64(h.cs_fst_len as u64) + le64(h.ci_fst_off as u64) + le64(h.ci_fst_len as u64) + le64(
        h.cs_post_off as u64,
    ) + le64(h.cs_post_len as u64) + le64(h.ci_post_off as u64) + le64(h.ci_post_len as u64)
}

/// The four parts after an empty header.
pub open spec fn tries_body(a: Seq<u8>, b: Seq<u8>, c: Seq<u8>, d: Seq<u8>) -> Seq<u8> {
    append8(append8(append8(append8(zeros(80), a), b), c), d)
}

/// Places of the four parts.
pub open spec fn tries_places(a: Seq<u8>, b: Seq<u8>, c: Seq<u8>, d: Seq<u8>) -> TriesHeader {
    let one = append8(zeros(80), a);
    let two = append8(one, b);
    let three = append8(two, c);
    let four = append8(three, d);
    TriesHeader {
        cs_fst_off: (one.len() - a.len()) as usize,
        cs_fst_len: a.len() as usize,
        ci_fst_off: (two.len() - b.len()) as usize,
        ci_fst_len: b.len() as usize,
        cs_post_off: (three.len() - c.len()) as usize,
        cs_post_len: c.len() as usize,
        ci_post_off: (four.len() - d.len()) as usize,
        ci_post_len: d.len() as usize,
    }
}

/// A tries region with these four parts.
pub open spec fn tries_bytes(a: Seq<u8>, b: Seq<u8>, c: Seq<u8>, d: Seq<u8>) -> Seq<u8> {
    tries_header(tries_places(a, b, c, d)) + tries_body(a, b, c, d).skip(80)
}

/// Appends a part at a multiple of 8.
fn append_aligned(buf: &mut Vec<u8>, part: &[u8]) -> (r: (usize, usize))
    ensures
        final(buf)@ == append8(old(buf)@, part@),
        r.0 == final(buf)@.len() - part@.len(),
        r.1 == part@.len(),
{
    let n: usize = buf.len();
    let pad: usize = (8 - n % 8) % 8;
    put_zeros(buf, pad);
    let off: usize = buf.len();
    put_bytes(buf, part);
    (off, part.len())
}

/// Bytes of a tries region with these four parts.
pub fn assemble_tries(a: &[u8], b: &[u8], c: &[u8], d: &[u8]) -> (r: Vec<u8>)
    ensures
        r@ == tries_bytes(a@, b@, c@, d@),
        tries_body(a@, b@, c@, d@).len() <= usize::MAX,
        tries_valid(r@),
{
    let mut body: Vec<u8> = Vec::new();
    put_zeros(&mut body, 80);
    proof {
        assert(body@ =~= zeros(80));
    }
    let pa = append_aligned(&mut body, a);
    let pb = append_aligned(&mut body, b);
    let pc = append_aligned(&mut body, c);
    let pd = append_aligned(&mut body, d);
    let size: usize = body.len();
    let ghost h = TriesHeader {
        cs_fst_off: pa.0,
        cs_fst_len: pa.1,
        ci_fst_off: pb.0,
        ci_fst_len: pb.1,
        cs_post_off: pc.0,
        cs_post_len: pc.1,
        ci_post_off: pd.0,
        ci_post_len: pd.1,
    };
    proof {
        assert(h == tries_places(a@, b@, c@, d@));
    }
    let mut out: Vec<u8> = Vec::new();
    put_bytes(&mut out, &TRIES_MAGIC);
    proof {
        assert(out@ =~= TRIES_MAGIC@);
    }
    put_u32(&mut out, TRIES_VERSION);
    put_u32(&mut out, TRIES_HEADER_LEN as u32);
    put_u64(&mut out, pa.0 as u64);
    put_u64(&mut out, pa.1 as u64);
    put_u64(&mut out, pb.0 as u64);
    put_u64(&mut out, pb.1 as u64);
    put_u64(&mut out, pc.0 as u64);
    put_u64(&mut out, pc.1 as u64);
    put_u64(&mut out, pd.0 as u64);
    put_u64(&mut out, pd.1 as u64);
    put_bytes(&mut out, vstd::slice::slice_subrange(body.as_slice(), 80, size));
    proof {
        assert(body@.subrange(80, size as int) =~= body@.skip(80));
        law_tries_read_back(a@, b@, c@, d@);
    }
    out
}

/// The bytes of a word map, as `fst` builds it from keys in ascending order.
pub uninterp spec fn fst_image(entries: Seq<(Seq<u8>, u64)>) -> Seq<u8>;

/// Keys and values that a map builder holds.
pub uninterp spec fn fst_entries(b: fst::MapBuilder<Vec<u8>>) -> Seq<(Seq<u8>, u64)>;

/// `fst::MapBuilder`.
#[verifier::external_type_specification]
#[verifier::external_body]
#[verifier::reject_recursive_types(W)]
pub struct ExMapBuilder<W>(fst::MapBuilder<W>);

/// Calls `fst::MapBuilder::memory`: an empty builder in memory.
#[verifier::external_body]
pub(crate) fn fst_memory() -> (b: fst::MapBuilder<Vec<u8>>)
    ensures
        fst_entries(b) == Seq::<(Seq<u8>, u64)>::empty(),
{
    fst::MapBuilder::memory()
}

/// Calls `fst::MapBuilder::insert`. A key that comes after the last one is
/// added with its value. Any other key is an error and changes nothing.
/// Writing to memory does not fail.
#[verifier::external_body]
pub(crate) fn fst_insert(b: &mut fst::MapBuilder<Vec<u8>>, key: &[u8], value: u64) -> (r: Result<(), String>)
    requires
        key@.len() > 0,
    ensures
        r is Ok <==> fst_entries(*old(b)).len() == 0 || bytes_before(
            fst_entries(*old(b)).last().0,
            key@,
        ),
        r is Ok ==> fst_entries(*final(b)) == fst_entries(*old(b)).push((key@, value)),
        r is Err ==> fst_entries(*final(b)) == fst_entries(*old(b)),
{
    b.insert(key, value).map_err(|error| error.to_string())
}

/// Calls `fst::MapBuilder::into_inner`. The bytes are a function of the
/// entries. Writing to memory does not fail.
#[verifier::external_body]
pub(crate) fn fst_finish(b: fst::MapBuilder<Vec<u8>>) -> (r: Result<Vec<u8>, String>)
    ensures
        match r {
            Ok(bytes) => bytes@ == fst_image(fst_entries(b)),
            Err(_) => false,
        },
{
    b.into_inner().map_err(|error| error.to_string())
}

/// What follows the first 80 bytes of a region is what follows them in its
/// body.
proof fn lemma_body_range(h: Seq<u8>, body: Seq<u8>, from: int, to: int)
    requires
        h.len() == 80,
        80 <= from <= to <= body.len(),
    ensures
        (h + body.skip(80)).subrange(from, to) == body.subrange(from, to),
        (h + body.skip(80)).len() == body.len(),
{
    assert((h + body.skip(80)).subrange(from, to) =~= body.subrange(from, to));
}

/// A part appended to a buffer stands at its end, at a multiple of 8.
proof fn lemma_append8(buf: Seq<u8>, part: Seq<u8>)
    ensures
        append8(buf, part).len() >= buf.len() + part.len(),
        append8(buf, part).take(buf.len() as int) == buf,
        append8(buf, part).skip(append8(buf, part).len() - part.len()) == part,
        (append8(buf, part).len() - part.len()) % 8 == 0,
{
    let r = append8(buf, part);
    assert(r.take(buf.len() as int) =~= buf);
    assert(r.skip(r.len() - part.len()) =~= part);
}

/// The header of a tries region states the places that it was made from.
proof fn lemma_tries_header(h: TriesHeader, t: Seq<u8>)
    requires
        t.len() >= tries_header(h).len(),
        t.take(tries_header(h).len() as int) == tries_header(h),
    ensures
        tries_header(h).len() == 80,
        t.take(8) == TRIES_MAGIC@,
        u32_at(t, 8) == TRIES_VERSION,
        u32_at(t, 12) == TRIES_HEADER_LEN,
        u64_at(t, 16) == h.cs_fst_off,
        u64_at(t, 24) == h.cs_fst_len,
        u64_at(t, 32) == h.ci_fst_off,
        u64_at(t, 40) == h.ci_fst_len,
        u64_at(t, 48) == h.cs_post_off,
        u64_at(t, 56) == h.cs_post_len,
        u64_at(t, 64) == h.ci_post_off,
        u64_at(t, 72) == h.ci_post_len,
{
    let p0 = TRIES_MAGIC@;
    let p1 = p0 + le32(TRIES_VERSION);
    let p2 = p1 + le32(TRIES_HEADER_LEN as u32);
    let p3 = p2 + le64(h.cs_fst_off as u64);
    let p4 = p3 + le64(h.cs_fst_len as u64);
    let p5 = p4 + le64(h.ci_fst_off as u64);
    let p6 = p5 + le64(h.ci_fst_len as u64);
    let p7 = p6 + le64(h.cs_post_off as u64);
    let p8 = p7 + le64(h.cs_post_len as u64);
    let p9 = p8 + le64(h.ci_post_off as u64);
    let p10 = p9 + le64(h.ci_post_len as u64);
    assert(tries_header(h) == p10);
    lemma_le_len(TRIES_VERSION, h.cs_fst_off as u64);
    lemma_le_len(TRIES_HEADER_LEN as u32, h.cs_fst_len as u64);
    lemma_le_len(0, h.ci_fst_off as u64);
    lemma_le_len(0, h.ci_fst_len as u64);
    lemma_le_len(0, h.cs_post_off as u64);
    lemma_le_len(0, h.cs_post_len as u64);
    lemma_le_len(0, h.ci_post_off as u64);
    lemma_le_len(0, h.ci_post_len as u64);
    lemma_opens(t, p9, le64(h.ci_post_len as u64));
    lemma_opens(t, p8, le64(h.ci_post_off as u64));
    lemma_opens(t, p7, le64(h.cs_post_len as u64));
    lemma_opens(t, p6, le64(h.cs_post_off as u64));
    lemma_opens(t, p5, le64(h.ci_fst_len as u64));
    lemma_opens(t, p4, le64(h.ci_fst_off as u64));
    lemma_opens(t, p3, le64(h.cs_fst_len as u64));
    lemma_opens(t, p2, le64(h.cs_fst_off as u64));
    lemma_opens(t, p1, le32(TRIES_HEADER_LEN as u32));
    lemma_opens(t, p0, le32(TRIES_VERSION));
    lemma_le32(t, 8, TRIES_VERSION);
    lemma_le32(t, 12, TRIES_HEADER_LEN as u32);
    lemma_le64(t, 16, h.cs_fst_off as u64);
    lemma_le64(t, 24, h.cs_fst_len as u64);
    lemma_le64(t, 32, h.ci_fst_off as u64);
    lemma_le64(t, 40, h.ci_fst_len as u64);
    lemma_le64(t, 48, h.cs_post_off as u64);
    lemma_le64(t, 56, h.cs_post_len as u64);
    lemma_le64(t, 64, h.ci_post_off as u64);
    lemma_le64(t, 72, h.ci_post_len as u64);
}

/// Places of the parts in the body.
proof fn lemma_body_parts(a: Seq<u8>, b: Seq<u8>, c: Seq<u8>, d: Seq<u8>)
    requires
        tries_body(a, b, c, d).len() <= usize::MAX,
    ensures
        ({
            let h = tries_places(a, b, c, d);
            let body = tries_body(a, b, c, d);
            &&& 80 <= h.cs_fst_off && h.cs_fst_off + a.len() <= body.len()
            &&& 80 <= h.ci_fst_off && h.ci_fst_off + b.len() <= body.len()
            &&& 80 <= h.cs_post_off && h.cs_post_off + c.len() <= body.len()
            &&& 80 <= h.ci_post_off && h.ci_post_off + d.len() <= body.len()
            &&& h.cs_fst_len == a.len() && h.ci_fst_len == b.len() && h.cs_post_len == c.len()
                && h.ci_post_len == d.len()
            &&& body.subrange(h.cs_fst_off as int, h.cs_fst_off + a.len()) == a
            &&& body.subrange(h.ci_fst_off as int, h.ci_fst_off + b.len()) == b
            &&& body.subrange(h.cs_post_off as int, h.cs_post_off + c.len()) == c
            &&& body.subrange(h.ci_post_off as int, h.ci_post_off + d.len()) == d
        }),
{
    let zero = zeros(80);
    let one = append8(zero, a);
    let two = append8(one, b);
    let three = append8(two, c);
    let four = append8(three, d);
    lemma_append8(zero, a);
    lemma_append8(one, b);
    lemma_append8(two, c);
    lemma_append8(three, d);
    let h = tries_places(a, b, c, d);
    let (pa, pb, pc) = (h.cs_fst_off as int, h.ci_fst_off as int, h.cs_post_off as int);
    lemma_prefix_range(two, one, pa, pa + a.len());
    lemma_prefix_range(three, two, pa, pa + a.len());
    lemma_prefix_range(four, three, pa, pa + a.len());
    lemma_prefix_range(three, two, pb, pb + b.len());
    lemma_prefix_range(four, three, pb, pb + b.len());
    lemma_prefix_range(four, three, pc, pc + c.len());
    assert(one.subrange(pa, pa + a.len()) =~= one.skip(one.len() - a.len()));
    assert(two.subrange(pb, pb + b.len()) =~= two.skip(two.len() - b.len()));
    assert(three.subrange(pc, pc + c.len()) =~= three.skip(three.len() - c.len()));
    assert(four.subrange(h.ci_post_off as int, h.ci_post_off + d.len()) =~= four.skip(
        four.len() - d.len(),
    ));
}

/// A packed tries region opens, and its four parts read back as they were
/// packed.
pub proof fn law_tries_read_back(a: Seq<u8>, b: Seq<u8>, c: Seq<u8>, d: Seq<u8>)
    requires
        tries_body(a, b, c, d).len() <= usize::MAX,
    ensures
        tries_valid(tries_bytes(a, b, c, d)),
        part_at(tries_bytes(a, b, c, d), 16) == a,
        part_at(tries_bytes(a, b, c, d), 32) == b,
        part_at(tries_bytes(a, b, c, d), 48) == c,
        part_at(tries_bytes(a, b, c, d), 64) == d,
{
    let h = tries_places(a, b, c, d);
    let body = tries_body(a, b, c, d);
    let head = tries_header(h);
    let t = head + body.skip(80);
    lemma_body_parts(a, b, c, d);
    lemma_tries_header_len(h);
    assert(t.take(80) =~= head);
    lemma_tries_header(h, t);
    lemma_body_range(head, body, h.cs_fst_off as int, h.cs_fst_off + a.len());
    lemma_body_range(head, body, h.ci_fst_off as int, h.ci_fst_off + b.len());
    lemma_body_range(head, body, h.cs_post_off as int, h.cs_post_off + c.len());
    lemma_body_range(head, body, h.ci_post_off as int, h.ci_post_off + d.len());
}

proof fn lemma_tries_header_len(h: TriesHeader)
    ensures
        tries_header(h).len() == 80,
{
    lemma_le_len(TRIES_VERSION, h.cs_fst_off as u64);
    lemma_le_len(TRIES_HEADER_LEN as u32, h.cs_fst_len as u64);
    lemma_le_len(0, h.ci_fst_off as u64);
    lemma_le_len(0, h.ci_fst_len as u64);
    lemma_le_len(0, h.cs_post_off as u64);
    lemma_le_len(0, h.cs_post_len as u64);
    lemma_le_len(0, h.ci_post_off as u64);
    lemma_le_len(0, h.ci_post_len as u64);
}

/// The parts of a tries region stand at multiples of eight, behind eighty
/// bytes that open with `MAJTRIES`, and none reaches into the next.
pub proof fn law_tries_layout(a: Seq<u8>, b: Seq<u8>, c: Seq<u8>, d: Seq<u8>)
    requires
        tries_body(a, b, c, d).len() <= usize::MAX,
    ensures
        ({
            let t = tries_bytes(a, b, c, d);
            &&& t.take(8) == seq![77u8, 65, 74, 84, 82, 73, 69, 83]
            &&& u32_at(t, 8) == 1
            &&& u32_at(t, 12) == 80
            &&& u64_at(t, 16) == 80
            &&& u64_at(t, 32) % 8 == 0 && u64_at(t, 48) % 8 == 0 && u64_at(t, 64) % 8 == 0
            &&& 80 + a.len() <= u64_at(t, 32) < 88 + a.len()
            &&& u64_at(t, 32) + b.len() <= u64_at(t, 48) < u64_at(t, 32) + b.len() + 8
            &&& u64_at(t, 48) + c.len() <= u64_at(t, 64) < u64_at(t, 48) + c.len() + 8
            &&& t.len() == u64_at(t, 64) + d.len()
        }),
{
    let h = tries_places(a, b, c, d);
    let body = tries_body(a, b, c, d);
    let head = tries_header(h);
    let t = head + body.skip(80);
    lemma_body_parts(a, b, c, d);
    lemma_tries_header_len(h);
    assert(t.take(80) =~= head);
    lemma_tries_header(h, t);
    let one = append8(zeros(80), a);
    let two = append8(one, b);
    let three = append8(two, c);
    lemma_append8(zeros(80), a);
    lemma_append8(one, b);
    lemma_append8(two, c);
    lemma_append8(three, d);
    assert(t.take(8) =~= seq![77u8, 65, 74, 84, 82, 73, 69, 83]);
}

} // verus!
