//! On-disk `.majestic` layout: header, payload, UTF-8 text blob, span table,
//! tries, tree hashes.
//!
//! Layout (little-endian):
//! - bytes 0..9: magic `MAJESTIC` plus format byte 1
//! - bytes 9..13: version, 1
//! - bytes 13..17: header length, 81
//! - bytes 17..81: offset and length of payload, text, spans and tries
//! - payload: the encoded records
//! - zero padding, so that the text starts at a multiple of 2 MiB. Older
//!   short files place the text right after the payload and still open.
//! - text: searchable UTF-8
//! - spans: 32-byte records
//! - tries: see [`crate::trie`]
//! - tree hashes: root, blob length, outboard length, blob, outboard
use vstd::prelude::*;
use vstd::utf8::{decode_utf8, encode_utf8, encode_utf8_decode_utf8, valid_utf8};

use crate::bytes::{
    le32, le64, lemma_le32, lemma_le64, lemma_le_len, lemma_opens, put_bytes, put_u32, put_u64,
    put_zeros, read_u32, read_u64, same_bytes, u32_at, u64_at, zeros,
};
use crate::hash::PackedBao;
use crate::index::{all_postings, index_fault, pack_tries, spans_fault, tries_of};
use crate::text::{cat, cat3, decimal, decimal_u64};

use crate::trie::{tries_valid, validate_tries_header};
use crate::utf::utf8_text;
use crate::Error;

verus! {

/// File magic: ASCII `MAJESTIC` plus one format byte.
pub const MAGIC: [u8; 9] = [77, 65, 74, 69, 83, 84, 73, 67, 1];

/// Format version.
pub const VERSION: u32 = 1;

/// Byte length of [`MAGIC`].
pub const MAGIC_LEN: usize = 9;

/// Offset of the version.
pub const VERSION_OFF: usize = 9;

/// Offset of the header length.
pub const HEADER_LEN_OFF: usize = 13;

/// Offset of the first region pair.
pub const PAIRS_OFF: usize = 17;

/// Fixed header size.
pub const HEADER_LEN: usize = 81;

/// Packed span record size.
pub const SPAN_LEN: usize = 32;

/// Page of the text blob: 2 MiB.
pub const TEXT_PAGE_BYTES: usize = 2097152;

/// Span `record_kind` for conversation title and summary.
pub const RECORD_CONVERSATION: u32 = 1;

/// Span `record_kind` for response message text.
pub const RECORD_RESPONSE: u32 = 2;

/// Span `field_id` for conversation title.
pub const FIELD_TITLE: u32 = 1;

/// Span `field_id` for conversation summary.
pub const FIELD_SUMMARY: u32 = 2;

/// Span `field_id` for response message strings.
pub const FIELD_MESSAGE: u32 = 3;

/// One searchable span into the UTF-8 text blob.
#[derive(Clone, Copy, Debug, PartialEq, Eq, Structural)]
pub struct TextSpan {
    pub text_off: u64,
    pub len: u64,
    pub record_kind: u32,
    pub record_index: u32,
    pub field_id: u32,
}

/// The 32 bytes of a span record.
pub open spec fn span_bytes(s: TextSpan) -> Seq<u8> {
    le64(s.text_off) + le64(s.len) + le32(s.record_kind) + le32(s.record_index) + le32(s.field_id)
        + le32(0)
}

/// The span record at the start of `b`.
pub open spec fn span_of(b: Seq<u8>) -> TextSpan {
    TextSpan {
        text_off: u64_at(b, 0),
        len: u64_at(b, 8),
        record_kind: u32_at(b, 16),
        record_index: u32_at(b, 20),
        field_id: u32_at(b, 24),
    }
}

/// The records of `spans` one after the other.
pub open spec fn spans_bytes(spans: Seq<TextSpan>) -> Seq<u8>
    decreases spans.len(),
{
    if spans.len() == 0 {
        Seq::empty()
    } else {
        spans_bytes(spans.drop_last()) + span_bytes(spans.last())
    }
}

/// A span record reads back as it was written.
pub proof fn law_span_round_trip(s: TextSpan)
    ensures
        span_bytes(s).len() == SPAN_LEN,
        span_of(span_bytes(s)) == s,
{
    let b = span_bytes(s);
    lemma_le_len(s.record_kind, s.text_off);
    lemma_le_len(s.record_index, s.len);
    lemma_le_len(s.field_id, s.len);
    lemma_le_len(0, s.len);
    assert(b.subrange(0, 8) =~= le64(s.text_off));
    assert(b.subrange(8, 16) =~= le64(s.len));
    assert(b.subrange(16, 20) =~= le32(s.record_kind));
    assert(b.subrange(20, 24) =~= le32(s.record_index));
    assert(b.subrange(24, 28) =~= le32(s.field_id));
    lemma_le64(b, 0, s.text_off);
    lemma_le64(b, 8, s.len);
    lemma_le32(b, 16, s.record_kind);
    lemma_le32(b, 20, s.record_index);
    lemma_le32(b, 24, s.field_id);
}

/// The span table holds record `i` at byte `32 * i`, and record `i` reads
/// back as span `i`.
pub proof fn law_span_table(spans: Seq<TextSpan>, i: int)
    requires
        0 <= i < spans.len(),
    ensures
        spans_bytes(spans).len() == SPAN_LEN * spans.len(),
        span_of(spans_bytes(spans).subrange(SPAN_LEN * i, SPAN_LEN * i + SPAN_LEN)) == spans[i],
    decreases spans.len(),
{
    lemma_spans_len(spans);
    lemma_spans_len(spans.drop_last());
    law_span_round_trip(spans.last());
    let all = spans_bytes(spans);
    let head = spans_bytes(spans.drop_last());
    if i == spans.len() - 1 {
        assert(all.subrange(SPAN_LEN * i, SPAN_LEN * i + SPAN_LEN) =~= span_bytes(spans.last()));
    } else {
        law_span_table(spans.drop_last(), i);
        assert(all.subrange(SPAN_LEN * i, SPAN_LEN * i + SPAN_LEN) =~= head.subrange(
            SPAN_LEN * i,
            SPAN_LEN * i + SPAN_LEN,
        ));
    }
}

/// Length of the span table.
pub proof fn lemma_spans_len(spans: Seq<TextSpan>)
    ensures
        spans_bytes(spans).len() == SPAN_LEN * spans.len(),
    decreases spans.len(),
{
    if spans.len() > 0 {
        lemma_spans_len(spans.drop_last());
        law_span_round_trip(spans.last());
    }
}

impl TextSpan {
    /// Appends the record of this span.
    pub fn write_bytes(self, out: &mut Vec<u8>)
        ensures
            final(out)@ == old(out)@ + span_bytes(self),
    {
        put_u64(out, self.text_off);
        put_u64(out, self.len);
        put_u32(out, self.record_kind);
        put_u32(out, self.record_index);
        put_u32(out, self.field_id);
        put_u32(out, 0);
        proof {
            assert(out@ =~= old(out)@ + span_bytes(self));
        }
    }

    /// The span record at the start of `bytes`.
    pub fn read_bytes(bytes: &[u8]) -> (r: Result<TextSpan, Error>)
        ensures
            match r {
                Ok(s) => bytes@.len() >= SPAN_LEN && s == span_of(bytes@),
                Err(e) => bytes@.len() < SPAN_LEN && e == Error::InvalidArchive,
            },
    {
        if bytes.len() < SPAN_LEN {
            return Err(Error::InvalidArchive);
        }
        let text_off = u64_from(bytes, 0)?;
        let len = u64_from(bytes, 8)?;
        let record_kind = u32_from(bytes, 16)?;
        let record_index = u32_from(bytes, 20)?;
        let field_id = u32_from(bytes, 24)?;
        Ok(TextSpan { text_off, len, record_kind, record_index, field_id })
    }
}

/// The 32-bit number at `off`.
pub fn u32_from(bytes: &[u8], off: usize) -> (r: Result<u32, Error>)
    ensures
        match r {
            Ok(x) => off + 4 <= bytes@.len() && x == u32_at(bytes@, off as int),
            Err(e) => off + 4 > bytes@.len() && e == Error::InvalidArchive,
        },
{
    match read_u32(bytes, off) {
        Some(x) => Ok(x),
        None => Err(Error::InvalidArchive),
    }
}

/// The 64-bit number at `off`.
pub fn u64_from(bytes: &[u8], off: usize) -> (r: Result<u64, Error>)
    ensures
        match r {
            Ok(x) => off + 8 <= bytes@.len() && x == u64_at(bytes@, off as int),
            Err(e) => off + 8 > bytes@.len() && e == Error::InvalidArchive,
        },
{
    match read_u64(bytes, off) {
        Some(x) => Ok(x),
        None => Err(Error::InvalidArchive),
    }
}

/// Text of the error for a value past 32 bits.
pub open spec fn unfit_text(value: nat, what: Seq<char>) -> Seq<char> {
    what + " is "@ + decimal(value)
        + ", which does not fit in a 32-bit archive field (maximum is 4294967295)"@
}

/// Converts a length or count into a 32-bit field.
pub fn u32_fit(value: u64, what: &str) -> (r: Result<u32, Error>)
    ensures
        match r {
            Ok(x) => value <= u32::MAX && x == value,
            Err(Error::Ingest(m)) => value > u32::MAX && m@ == unfit_text(value as nat, what@),
            Err(_) => false,
        },
{
    if value <= u32::MAX as u64 {
        Ok(value as u32)
    } else {
        let d = decimal_u64(value);
        let mut m = cat3(what, " is ", d.as_str());
        m.push_str(", which does not fit in a 32-bit archive field (maximum is 4294967295)");
        Err(Error::Ingest(m))
    }
}

/// [`u32_fit`] for a length in memory.
pub fn u32_fit_usize(value: usize, what: &str) -> (r: Result<u32, Error>)
    ensures
        match r {
            Ok(x) => value <= u32::MAX && x == value,
            Err(Error::Ingest(m)) => value > u32::MAX && m@ == unfit_text(value as nat, what@),
            Err(_) => false,
        },
{
    u32_fit(value as u64, what)
}

/// Places of the four regions of a file.
#[derive(Clone, Copy, Debug, PartialEq, Eq, Structural)]
pub struct Layout {
    pub payload_off: u64,
    pub payload_len: u64,
    pub text_off: u64,
    pub text_len: u64,
    pub spans_off: u64,
    pub spans_len: u64,
    pub tries_off: u64,
    pub tries_len: u64,
}

/// The least multiple of 2 MiB that is not below `value`.
pub open spec fn page_up(value: int) -> int {
    if value % 2097152 == 0 {
        value
    } else {
        value + (2097152 - value % 2097152)
    }
}

/// Where the text of a file with this payload length starts.
pub open spec fn text_start(payload_len: int, align: bool) -> int {
    if align {
        page_up(HEADER_LEN + payload_len)
    } else {
        HEADER_LEN + payload_len
    }
}

/// Why no layout exists for these lengths.
pub open spec fn layout_fault(
    payload_len: int,
    text_len: int,
    spans_len: int,
    align: bool,
) -> Option<Seq<char>> {
    let text_off = text_start(payload_len, align);
    if HEADER_LEN + payload_len > u64::MAX {
        Some("payload end overflow"@)
    } else if text_off > u64::MAX {
        Some("text offset overflow while aligning to 2 MiB"@)
    } else if text_off + text_len > u64::MAX {
        Some("span offset overflow"@)
    } else if text_off + text_len + spans_len > u64::MAX {
        Some("tries offset overflow"@)
    } else {
        None
    }
}

/// The layout for these lengths.
pub open spec fn layout_for(
    payload_len: int,
    text_len: int,
    spans_len: int,
    tries_len: int,
    align: bool,
) -> Layout {
    let text_off = text_start(payload_len, align);
    Layout {
        payload_off: HEADER_LEN as u64,
        payload_len: payload_len as u64,
        text_off: text_off as u64,
        text_len: text_len as u64,
        spans_off: (text_off + text_len) as u64,
        spans_len: spans_len as u64,
        tries_off: (text_off + text_len + spans_len) as u64,
        tries_len: tries_len as u64,
    }
}

/// Rounds up to a page of the text blob.
pub fn align_up_to_text_page(value: u64) -> (r: Result<u64, Error>)
    ensures
        match r {
            Ok(x) => x == page_up(value as int) && x % 2097152 == 0 && x >= value,
            Err(Error::Ingest(m)) => page_up(value as int) > u64::MAX && m@
                == "text offset overflow while aligning to 2 MiB"@,
            Err(_) => false,
        },
{
    let rem = value % 2097152;
    if rem == 0 {
        Ok(value)
    } else {
        match value.checked_add(2097152 - rem) {
            Some(x) => Ok(x),
            None => Err(
                Error::Ingest("text offset overflow while aligning to 2 MiB".to_owned()),
            ),
        }
    }
}

/// Places the regions of a file.
pub fn plan_layout(
    payload_len: u64,
    text_len: u64,
    spans_len: u64,
    tries_len: u64,
    align: bool,
) -> (r: Result<Layout, Error>)
    ensures
        match r {
            Ok(l) => layout_fault(payload_len as int, text_len as int, spans_len as int, align)
                is None && l == layout_for(
                payload_len as int,
                text_len as int,
                spans_len as int,
                tries_len as int,
                align,
            ),
            Err(Error::Ingest(m)) => layout_fault(
                payload_len as int,
                text_len as int,
                spans_len as int,
                align,
            ) == Some(m@),
            Err(_) => false,
        },
{
    let payload_end = match (HEADER_LEN as u64).checked_add(payload_len) {
        Some(x) => x,
        None => {
            return Err(Error::Ingest("payload end overflow".to_owned()));
        },
    };
    let text_off = if align {
        align_up_to_text_page(payload_end)?
    } else {
        payload_end
    };
    let spans_off = match text_off.checked_add(text_len) {
        Some(x) => x,
        None => {
            return Err(Error::Ingest("span offset overflow".to_owned()));
        },
    };
    let tries_off = match spans_off.checked_add(spans_len) {
        Some(x) => x,
        None => {
            return Err(Error::Ingest("tries offset overflow".to_owned()));
        },
    };
    Ok(
        Layout {
            payload_off: HEADER_LEN as u64,
            payload_len,
            text_off,
            text_len,
            spans_off,
            spans_len,
            tries_off,
            tries_len,
        },
    )
}

/// Header bytes of a layout.
#[verifier::opaque]
pub open spec fn header_bytes(l: Layout) -> Seq<u8> {
    MAGIC@ + le32(VERSION) + le32(HEADER_LEN as u32) + le64(l.payload_off) + le64(l.payload_len)
        + le64(l.text_off) + le64(l.text_len) + le64(l.spans_off) + le64(l.spans_len) + le64(
        l.tries_off,
    ) + le64(l.tries_len)
}

/// The layout that the header of `b` states.
pub open spec fn layout_at(b: Seq<u8>) -> Layout {
    Layout {
        payload_off: u64_at(b, 17),
        payload_len: u64_at(b, 25),
        text_off: u64_at(b, 33),
        text_len: u64_at(b, 41),
        spans_off: u64_at(b, 49),
        spans_len: u64_at(b, 57),
        tries_off: u64_at(b, 65),
        tries_len: u64_at(b, 73),
    }
}

/// Trailing region: root, lengths, blob, outboard.
pub open spec fn bao_bytes(root: Seq<u8>, blob: Seq<u8>, outboard: Seq<u8>) -> Seq<u8> {
    root + le64(blob.len() as u64) + le64(outboard.len() as u64) + blob + outboard
}

/// A file with these regions.
pub open spec fn file_bytes(
    payload: Seq<u8>,
    text: Seq<u8>,
    spans: Seq<u8>,
    tries: Seq<u8>,
    bao: Seq<u8>,
    align: bool,
) -> Seq<u8> {
    let l = layout_for(
        payload.len() as int,
        text.len() as int,
        spans.len() as int,
        tries.len() as int,
        align,
    );
    header_bytes(l) + payload + zeros((l.text_off - HEADER_LEN - payload.len()) as nat) + text
        + spans + tries + bao
}

/// Appends the header of a layout.
fn put_header(out: &mut Vec<u8>, l: Layout)
    ensures
        final(out)@ == old(out)@ + header_bytes(l),
{
    put_bytes(out, &MAGIC);
    put_u32(out, VERSION);
    put_u32(out, HEADER_LEN as u32);
    put_u64(out, l.payload_off);
    put_u64(out, l.payload_len);
    put_u64(out, l.text_off);
    put_u64(out, l.text_len);
    put_u64(out, l.spans_off);
    put_u64(out, l.spans_len);
    put_u64(out, l.tries_off);
    put_u64(out, l.tries_len);
    proof {
        reveal(header_bytes);
        assert(out@ =~= old(out)@ + header_bytes(l));
    }
}

/// Appending pieces one by one appends them as a whole.
proof fn lemma_append_five(
    s: Seq<u8>,
    a: Seq<u8>,
    b: Seq<u8>,
    c: Seq<u8>,
    d: Seq<u8>,
    e: Seq<u8>,
)
    ensures
        s + a + b + c + d + e == s + (a + b + c + d + e),
{
    assert(s + a + b + c + d + e =~= s + (a + b + c + d + e));
}

/// The bytes of a file with these regions.
pub fn assemble(
    payload: &[u8],
    text: &[u8],
    spans: &[u8],
    tries: &[u8],
    bao: &PackedBao,
    align: bool,
) -> (r: Result<Vec<u8>, Error>)
    ensures
        match r {
            Ok(file) => layout_fault(
                payload@.len() as int,
                text@.len() as int,
                spans@.len() as int,
                align,
            ) is None && file@ == file_bytes(
                payload@,
                text@,
                spans@,
                tries@,
                bao_bytes(bao.root@, bao.blob@, bao.outboard@),
                align,
            ),
            Err(Error::Ingest(m)) => layout_fault(
                payload@.len() as int,
                text@.len() as int,
                spans@.len() as int,
                align,
            ) == Some(m@),
            Err(_) => false,
        },
{
    let l = plan_layout(
        payload.len() as u64,
        text.len() as u64,
        spans.len() as u64,
        tries.len() as u64,
        align,
    )?;
    let pad = l.text_off - (HEADER_LEN as u64 + payload.len() as u64);
    let mut out: Vec<u8> = Vec::new();
    put_header(&mut out, l);
    proof {
        assert(out@ =~= header_bytes(l));
    }
    put_bytes(&mut out, payload);
    put_zeros(&mut out, pad as usize);
    put_bytes(&mut out, text);
    put_bytes(&mut out, spans);
    put_bytes(&mut out, tries);
    let ghost before = out@;
    put_bytes(&mut out, &bao.root);
    put_u64(&mut out, bao.blob.len() as u64);
    put_u64(&mut out, bao.outboard.len() as u64);
    put_bytes(&mut out, bao.blob.as_slice());
    put_bytes(&mut out, bao.outboard.as_slice());
    proof {
        lemma_append_five(
            before,
            bao.root@,
            le64(bao.blob@.len() as u64),
            le64(bao.outboard@.len() as u64),
            bao.blob@,
            bao.outboard@,
        );
    }
    Ok(out)
}

/// The name of the file that is written before it takes the place of `path`.
pub fn tmp_beside(path: &str) -> (r: String)
    ensures
        r@ == path@ + ".tmp"@,
{
    cat(path, ".tmp")
}

/// Why a file with these contents cannot be written.
pub open spec fn write_fault(
    payload: Seq<u8>,
    text: Seq<u8>,
    spans: Seq<TextSpan>,
    align: bool,
    m: Seq<char>,
) -> bool {
    let chars = decode_utf8(text);
    if spans.len() > u32::MAX {
        m == unfit_text(spans.len(), "text span count"@)
    } else if !valid_utf8(text) {
        m == "text blob is not utf-8"@
    } else if spans_fault(chars, spans) is Some {
        spans_fault(chars, spans) == Some(m)
    } else {
        ||| index_fault(all_postings(chars, spans, false), m)
        ||| index_fault(all_postings(chars, spans, true), m)
        ||| layout_fault(
            payload.len() as int,
            text.len() as int,
            spans_bytes(spans).len() as int,
            align,
        ) == Some(m)
    }
}

/// `file` holds this payload, text, span table, word index and tree hashes.
pub open spec fn is_archive_of(
    file: Seq<u8>,
    payload: Seq<u8>,
    text: Seq<u8>,
    spans: Seq<TextSpan>,
    bao: PackedBao,
    align: bool,
) -> bool {
    exists|tries: Seq<u8>| #[trigger]
        tries_of(decode_utf8(text), spans, tries) && file == file_bytes(
            payload,
            text,
            spans_bytes(spans),
            tries,
            bao_bytes(bao.root@, bao.blob@, bao.outboard@),
            align,
        )
}

/// The file has room for these lengths, it opens unless the payload is empty,
/// and what is read from it is what was written.
pub open spec fn reads_back(
    file: Seq<u8>,
    payload: Seq<u8>,
    text: Seq<u8>,
    spans: Seq<TextSpan>,
    bao: PackedBao,
    align: bool,
) -> bool {
    &&& layout_fault(
        payload.len() as int,
        text.len() as int,
        spans_bytes(spans).len() as int,
        align,
    ) is None
    &&& payload.len() > 0 ==> open_fault(file) is None
    &&& payload.len() == 0 ==> open_fault(file) == Some(Error::InvalidArchive)
    &&& payload_of(file) == payload
    &&& text_of(file) == text
    &&& align ==> layout_at(file).text_off % 2097152 == 0
    &&& spans_of(file).len() == SPAN_LEN * spans.len()
    &&& forall|i: int|
        0 <= i < spans.len() ==> span_of(
            spans_of(file).subrange(SPAN_LEN * i, SPAN_LEN * i + SPAN_LEN),
        ) == #[trigger] spans[i]
    &&& tries_valid(tries_region_of(file))
    &&& trailer_of(file).take(32) == bao.root@
    &&& blob_of(file) == bao.blob@
    &&& outboard_of(file) == bao.outboard@
}

/// The span table.
fn span_table(spans: &[TextSpan]) -> (r: Vec<u8>)
    ensures
        r@ == spans_bytes(spans@),
{
    let mut out: Vec<u8> = Vec::new();
    let mut i: usize = 0;
    proof {
        assert(spans@.take(0) =~= Seq::<TextSpan>::empty());
    }
    while i < spans.len()
        invariant
            i <= spans@.len(),
            spans@.len() == spans.len(),
            out@ == spans_bytes(spans@.take(i as int)),
        decreases spans.len() - i,
    {
        spans[i].write_bytes(&mut out);
        proof {
            assert(spans@.take(i + 1).drop_last() =~= spans@.take(i as int));
        }
        i = i + 1;
    }
    proof {
        assert(spans@.take(spans@.len() as int) =~= spans@);
    }
    out
}

/// The bytes of a new archive file. Its text starts on a 2 MiB page.
pub fn write_archive(payload: &[u8], text: &[u8], spans: &[TextSpan], bao: &PackedBao) -> (r: Result<
    Vec<u8>,
    Error,
>)
    ensures
        match r {
            Ok(file) => is_archive_of(file@, payload@, text@, spans@, *bao, true) && reads_back(
                file@,
                payload@,
                text@,
                spans@,
                *bao,
                true,
            ) && valid_utf8(text@),
            Err(Error::Ingest(m)) => write_fault(payload@, text@, spans@, true, m@),
            Err(_) => false,
        },
{
    write_archive_with_text_align(payload, text, spans, bao, true)
}

/// The bytes of an archive file, with or without padding before the text.
#[verifier::rlimit(30)]
pub fn write_archive_with_text_align(
    payload: &[u8],
    text: &[u8],
    spans: &[TextSpan],
    bao: &PackedBao,
    align_text: bool,
) -> (r: Result<Vec<u8>, Error>)
    ensures
        match r {
            Ok(file) => is_archive_of(file@, payload@, text@, spans@, *bao, align_text)
                && reads_back(file@, payload@, text@, spans@, *bao, align_text) && valid_utf8(
                text@,
            ),
            Err(Error::Ingest(m)) => write_fault(payload@, text@, spans@, align_text, m@),
            Err(_) => false,
        },
{
    match u32_fit_usize(spans.len(), "text span count") {
        Ok(_) => {},
        Err(e) => {
            return Err(e);
        },
    }
    let table = span_table(spans);
    let chars = match utf8_text(text) {
        Some(s) => s,
        None => {
            return Err(Error::Ingest("text blob is not utf-8".to_owned()));
        },
    };
    proof {
        encode_utf8_decode_utf8(chars@);
    }
    let tries = pack_tries(chars, spans)?;
    let file = assemble(payload, text, table.as_slice(), tries.as_slice(), bao, align_text)?;
    proof {
        assert(bao.blob.len() <= u64::MAX && bao.outboard.len() <= u64::MAX);
        lemma_written_reads_back(payload@, text@, spans@, tries@, *bao, align_text);
    }
    Ok(file)
}

/// The trailing region fills its bytes exactly.
pub open spec fn bao_valid(b: Seq<u8>) -> bool {
    b.len() >= 48 && 48 + u64_at(b, 32) + u64_at(b, 40) == b.len()
}

/// Why a file does not open.
pub open spec fn open_fault(b: Seq<u8>) -> Option<Error> {
    let l = layout_at(b);
    if b.len() < HEADER_LEN {
        Some(Error::InvalidArchive)
    } else if b.take(9) != MAGIC@ {
        Some(Error::InvalidMagic)
    } else if u32_at(b, 9) != VERSION {
        Some(Error::UnsupportedVersion(u32_at(b, 9)))
    } else if u32_at(b, 13) != HEADER_LEN {
        Some(Error::InvalidArchive)
    } else if l.tries_off + l.tries_len > b.len() {
        Some(Error::InvalidArchive)
    } else if l.tries_off + l.tries_len < b.len() && !bao_valid(b.skip(l.tries_off + l.tries_len)) {
        Some(Error::InvalidArchive)
    } else if l.payload_off + l.payload_len > b.len() || l.text_off + l.text_len > b.len()
        || l.spans_off + l.spans_len > b.len() {
        Some(Error::InvalidArchive)
    } else if l.tries_len > 0 && !tries_valid(
        b.subrange(l.tries_off as int, l.tries_off + l.tries_len),
    ) {
        Some(Error::InvalidTries)
    } else if l.payload_len == 0 {
        Some(Error::InvalidArchive)
    } else {
        None
    }
}

/// An opened archive file: its bytes and the places of its regions.
pub struct Archive<'a> {
    path: String,
    bytes: &'a [u8],
    payload: (usize, usize),
    text: (usize, usize),
    spans: (usize, usize),
    tries: (usize, usize),
    bao_off: usize,
}

/// The parts of the trailing region.
pub struct BaoParts<'a> {
    pub root: [u8; 32],
    pub blob: &'a [u8],
    pub outboard: &'a [u8],
}

/// Reads the trailing region.
pub fn parse_bao_region<'a>(region: &'a [u8]) -> (r: Result<BaoParts<'a>, Error>)
    ensures
        match r {
            Ok(p) => bao_valid(region@) && p.root@ == region@.take(32) && p.blob@
                == region@.subrange(48, 48 + u64_at(region@, 32)) && p.outboard@ == region@.skip(
                48 + u64_at(region@, 32),
            ),
            Err(e) => !bao_valid(region@) && e == Error::InvalidArchive,
        },
{
    let size: usize = region.len();
    if size < 48 {
        return Err(Error::InvalidArchive);
    }
    let mut root: [u8; 32] = [0;32];
    let mut i: usize = 0;
    while i < 32
        invariant
            i <= 32,
            region@.len() >= 48,
            forall|j: int| 0 <= j < i ==> root@[j] == region@[j],
        decreases 32 - i,
    {
        root[i] = region[i];
        i = i + 1;
    }
    let blob_len = u64_from(region, 32)?;
    let outboard_len = u64_from(region, 40)?;
    let room: u64 = (size - 48) as u64;
    if blob_len > room || outboard_len != room - blob_len {
        return Err(Error::InvalidArchive);
    }
    let mid: usize = 48 + blob_len as usize;
    let blob = vstd::slice::slice_subrange(region, 48, mid);
    let outboard = vstd::slice::slice_subrange(region, mid, size);
    proof {
        assert(root@ =~= region@.take(32));
        assert(outboard@ =~= region@.skip(48 + u64_at(region@, 32)));
    }
    Ok(BaoParts { root, blob, outboard })
}

/// Offset and length at `at`, when they describe a region of the file.
fn read_region(bytes: &[u8], at: usize) -> (r: Result<(usize, usize), Error>)
    requires
        at + 16 <= bytes@.len(),
    ensures
        match r {
            Ok(p) => u64_at(bytes@, at as int) + u64_at(bytes@, at + 8) <= bytes@.len() && p.0
                == u64_at(bytes@, at as int) && p.1 == u64_at(bytes@, at + 8),
            Err(e) => u64_at(bytes@, at as int) + u64_at(bytes@, at + 8) > bytes@.len() && e
                == Error::InvalidArchive,
        },
{
    let size: usize = bytes.len();
    let off = u64_from(bytes, at)?;
    let len = u64_from(bytes, at + 8)?;
    if len > size as u64 || off > size as u64 - len {
        Err(Error::InvalidArchive)
    } else {
        Ok((off as usize, len as usize))
    }
}

impl<'a> Archive<'a> {
    /// The bytes of the file.
    pub closed spec fn file(&self) -> Seq<u8> {
        self.bytes@
    }

    /// The path that the file was opened under.
    pub closed spec fn path_view(&self) -> Seq<char> {
        self.path@
    }

    /// Every region lies where the header says, inside the file.
    pub closed spec fn wf(&self) -> bool {
        let l = layout_at(self.bytes@);
        &&& open_fault(self.bytes@) is None
        &&& self.payload == (l.payload_off as usize, l.payload_len as usize)
        &&& self.text == (l.text_off as usize, l.text_len as usize)
        &&& self.spans == (l.spans_off as usize, l.spans_len as usize)
        &&& self.tries == (l.tries_off as usize, l.tries_len as usize)
        &&& self.payload.0 == l.payload_off && self.payload.1 == l.payload_len
        &&& self.text.0 == l.text_off && self.text.1 == l.text_len
        &&& self.spans.0 == l.spans_off && self.spans.1 == l.spans_len
        &&& self.tries.0 == l.tries_off && self.tries.1 == l.tries_len
        &&& self.bao_off == l.tries_off + l.tries_len
    }

    /// Reads the header of a file and checks its regions. The caller maps
    /// the file and checks the encoding of the payload.
    pub fn open(path: &str, bytes: &'a [u8]) -> (r: Result<Archive<'a>, Error>)
        ensures
            match r {
                Ok(a) => open_fault(bytes@) is None && a.wf() && a.file() == bytes@
                    && a.path_view() == path@,
                Err(e) => open_fault(bytes@) == Some(e),
            },
    {
        let size: usize = bytes.len();
        if size < HEADER_LEN {
            return Err(Error::InvalidArchive);
        }
        let magic = vstd::slice::slice_subrange(bytes, 0, 9);
        proof {
            assert(magic@ =~= bytes@.take(9));
        }
        if !same_bytes(magic, &MAGIC) {
            return Err(Error::InvalidMagic);
        }
        let version = u32_from(bytes, VERSION_OFF)?;
        if version != VERSION {
            return Err(Error::UnsupportedVersion(version));
        }
        let header_len = u32_from(bytes, HEADER_LEN_OFF)?;
        if header_len != 81 {
            return Err(Error::InvalidArchive);
        }
        let tries = read_region(bytes, 65)?;
        let bao_off: usize = tries.0 + tries.1;
        if size > bao_off {
            let region = vstd::slice::slice_subrange(bytes, bao_off, size);
            proof {
                assert(region@ =~= bytes@.skip(bao_off as int));
            }
            match parse_bao_region(region) {
                Ok(_) => {},
                Err(e) => {
                    return Err(e);
                },
            }
        }
        let payload = read_region(bytes, 17)?;
        let text = read_region(bytes, 33)?;
        let spans = read_region(bytes, 49)?;
        if tries.1 > 0 {
            validate_tries_header(vstd::slice::slice_subrange(bytes, tries.0, bao_off))?;
        }
        if payload.1 == 0 {
            return Err(Error::InvalidArchive);
        }
        Ok(Archive { path: path.to_owned(), bytes, payload, text, spans, tries, bao_off })
    }

    /// The path that the file was opened under.
    pub fn path(&self) -> (r: &str)
        ensures
            r@ == self.path_view(),
    {
        self.path.as_str()
    }

    /// File offset of the text blob, as stored in the header.
    pub fn text_file_offset(&self) -> (r: u64)
        requires
            self.wf(),
        ensures
            r == layout_at(self.file()).text_off,
    {
        self.text.0 as u64
    }

    /// Length of the encoded records.
    pub fn payload_len(&self) -> (r: u64)
        requires
            self.wf(),
        ensures
            r == layout_at(self.file()).payload_len,
    {
        self.payload.1 as u64
    }

    /// Length of the text blob.
    pub fn text_len(&self) -> (r: u64)
        requires
            self.wf(),
        ensures
            r == layout_at(self.file()).text_len,
    {
        self.text.1 as u64
    }

    /// The encoded records.
    pub fn payload_slice(&self) -> (r: Result<&'a [u8], Error>)
        requires
            self.wf(),
        ensures
            r matches Ok(s) && s@ == payload_of(self.file()) && s@.len() > 0,
    {
        let size: usize = self.bytes.len();
        Ok(vstd::slice::slice_subrange(self.bytes, self.payload.0, self.payload.0 + self.payload.1))
    }

    /// The text blob.
    pub fn text_slice(&self) -> (r: Result<&'a [u8], Error>)
        requires
            self.wf(),
        ensures
            r matches Ok(s) && s@ == text_of(self.file()),
    {
        let size: usize = self.bytes.len();
        Ok(vstd::slice::slice_subrange(self.bytes, self.text.0, self.text.0 + self.text.1))
    }

    /// The text blob as a string.
    pub fn text(&self) -> (r: Result<&'a str, Error>)
        requires
            self.wf(),
        ensures
            match r {
                Ok(s) => valid_utf8(text_of(self.file())) && encode_utf8(s@) == text_of(
                    self.file(),
                ),
                Err(e) => !valid_utf8(text_of(self.file())) && e == Error::InvalidArchive,
            },
    {
        match utf8_text(self.text_slice()?) {
            Some(s) => Ok(s),
            None => Err(Error::InvalidArchive),
        }
    }

    /// The span table.
    pub fn spans_slice(&self) -> (r: Result<&'a [u8], Error>)
        requires
            self.wf(),
        ensures
            r matches Ok(s) && s@ == spans_of(self.file()),
    {
        let size: usize = self.bytes.len();
        Ok(vstd::slice::slice_subrange(self.bytes, self.spans.0, self.spans.0 + self.spans.1))
    }

    /// The tries region.
    pub fn tries_slice(&self) -> (r: Result<&'a [u8], Error>)
        requires
            self.wf(),
        ensures
            r matches Ok(s) && s@ == tries_region_of(self.file()),
    {
        Ok(vstd::slice::slice_subrange(self.bytes, self.tries.0, self.tries.0 + self.tries.1))
    }

    /// The trailing region, when there is one.
    fn bao_parts(&self) -> (r: Option<BaoParts<'a>>)
        requires
            self.wf(),
        ensures
            match r {
                Some(p) => trailer_of(self.file()).len() > 0 && bao_valid(trailer_of(self.file()))
                    && p.root@ == trailer_of(self.file()).take(32) && p.blob@ == trailer_of(
                    self.file(),
                ).subrange(48, 48 + u64_at(trailer_of(self.file()), 32)) && p.outboard@
                    == trailer_of(self.file()).skip(48 + u64_at(trailer_of(self.file()), 32)),
                None => trailer_of(self.file()).len() == 0,
            },
    {
        let size: usize = self.bytes.len();
        if size == self.bao_off {
            return None;
        }
        let region = vstd::slice::slice_subrange(self.bytes, self.bao_off, size);
        proof {
            assert(region@ =~= trailer_of(self.file()));
        }
        match parse_bao_region(region) {
            Ok(p) => Some(p),
            Err(_) => None,
        }
    }

    /// Conversation encodings, then uploaded file bodies. Empty in files
    /// without the trailing region.
    pub fn bao_blob(&self) -> (r: Result<&'a [u8], Error>)
        requires
            self.wf(),
        ensures
            r matches Ok(s) && s@ == blob_of(self.file()),
    {
        match self.bao_parts() {
            Some(p) => Ok(p.blob),
            None => {
                let empty = vstd::slice::slice_subrange(self.bytes, 0, 0);
                proof {
                    assert(empty@ =~= Seq::<u8>::empty());
                }
                Ok(empty)
            },
        }
    }

    /// The outboard of [`Self::bao_blob`].
    pub fn bao_outboard(&self) -> (r: Result<&'a [u8], Error>)
        requires
            self.wf(),
        ensures
            r matches Ok(s) && s@ == outboard_of(self.file()),
    {
        match self.bao_parts() {
            Some(p) => Ok(p.outboard),
            None => {
                let empty = vstd::slice::slice_subrange(self.bytes, 0, 0);
                proof {
                    assert(empty@ =~= Seq::<u8>::empty());
                }
                Ok(empty)
            },
        }
    }

    /// The tree root of the blob. `None` in files without the trailing region.
    pub fn bao_root(&self) -> (r: Result<Option<[u8; 32]>, Error>)
        requires
            self.wf(),
        ensures
            match r {
                Ok(Some(root)) => trailer_of(self.file()).len() > 0 && root@ == trailer_of(
                    self.file(),
                ).take(32),
                Ok(None) => trailer_of(self.file()).len() == 0,
                Err(_) => false,
            },
    {
        match self.bao_parts() {
            Some(p) => Ok(Some(p.root)),
            None => Ok(None),
        }
    }

    /// How many records the span table holds.
    pub fn span_count(&self) -> (r: Result<usize, Error>)
        requires
            self.wf(),
        ensures
            match r {
                Ok(n) => spans_of(self.file()).len() == SPAN_LEN * n,
                Err(e) => spans_of(self.file()).len() % 32 != 0 && e == Error::InvalidArchive,
            },
    {
        let n: usize = self.spans_slice()?.len();
        if n % 32 != 0 {
            Err(Error::InvalidArchive)
        } else {
            Ok(n / 32)
        }
    }

    /// Record `index` of the span table.
    pub fn span(&self, index: usize) -> (r: Result<TextSpan, Error>)
        requires
            self.wf(),
        ensures
            match r {
                Ok(s) => SPAN_LEN * index + SPAN_LEN <= spans_of(self.file()).len() && s
                    == span_of(
                    spans_of(self.file()).subrange(SPAN_LEN * index, SPAN_LEN * index + SPAN_LEN),
                ),
                Err(e) => SPAN_LEN * index + SPAN_LEN > spans_of(self.file()).len() && e
                    == Error::InvalidArchive,
            },
    {
        let table = self.spans_slice()?;
        let size: usize = table.len();
        if index >= size / 32 {
            return Err(Error::InvalidArchive);
        }
        let start: usize = index * 32;
        TextSpan::read_bytes(vstd::slice::slice_subrange(table, start, start + 32))
    }
}

/// The payload of a file.
pub open spec fn payload_of(b: Seq<u8>) -> Seq<u8> {
    let l = layout_at(b);
    b.subrange(l.payload_off as int, l.payload_off + l.payload_len)
}

/// The text of a file.
pub open spec fn text_of(b: Seq<u8>) -> Seq<u8> {
    let l = layout_at(b);
    b.subrange(l.text_off as int, l.text_off + l.text_len)
}

/// The span table of a file.
pub open spec fn spans_of(b: Seq<u8>) -> Seq<u8> {
    let l = layout_at(b);
    b.subrange(l.spans_off as int, l.spans_off + l.spans_len)
}

/// The tries region of a file.
pub open spec fn tries_region_of(b: Seq<u8>) -> Seq<u8> {
    let l = layout_at(b);
    b.subrange(l.tries_off as int, l.tries_off + l.tries_len)
}

/// What follows the tries region of a file.
pub open spec fn trailer_of(b: Seq<u8>) -> Seq<u8> {
    let l = layout_at(b);
    b.skip(l.tries_off + l.tries_len)
}

/// The tree-hashed blob of a file.
pub open spec fn blob_of(b: Seq<u8>) -> Seq<u8> {
    let t = trailer_of(b);
    if t.len() == 0 {
        Seq::empty()
    } else {
        t.subrange(48, 48 + u64_at(t, 32))
    }
}

/// The outboard of the blob of a file.
pub open spec fn outboard_of(b: Seq<u8>) -> Seq<u8> {
    let t = trailer_of(b);
    if t.len() == 0 {
        Seq::empty()
    } else {
        t.skip(48 + u64_at(t, 32))
    }
}

/// A file that opens with a header states the layout that the header was made
/// from.
pub proof fn law_header_round_trip(l: Layout, b: Seq<u8>)
    requires
        b.len() >= header_bytes(l).len(),
        b.take(header_bytes(l).len() as int) == header_bytes(l),
    ensures
        header_bytes(l).len() == HEADER_LEN,
        b.take(9) == MAGIC@,
        u32_at(b, 9) == VERSION,
        u32_at(b, 13) == HEADER_LEN,
        layout_at(b) == l,
{
    let p0 = MAGIC@;
    let p1 = p0 + le32(VERSION);
    let p2 = p1 + le32(HEADER_LEN as u32);
    let p3 = p2 + le64(l.payload_off);
    let p4 = p3 + le64(l.payload_len);
    let p5 = p4 + le64(l.text_off);
    let p6 = p5 + le64(l.text_len);
    let p7 = p6 + le64(l.spans_off);
    let p8 = p7 + le64(l.spans_len);
    let p9 = p8 + le64(l.tries_off);
    let p10 = p9 + le64(l.tries_len);
    reveal(header_bytes);
    assert(header_bytes(l) == p10);
    lemma_le_len(VERSION, l.payload_off);
    lemma_le_len(HEADER_LEN as u32, l.payload_len);
    lemma_le_len(0, l.text_off);
    lemma_le_len(0, l.text_len);
    lemma_le_len(0, l.spans_off);
    lemma_le_len(0, l.spans_len);
    lemma_le_len(0, l.tries_off);
    lemma_le_len(0, l.tries_len);
    lemma_opens(b, p9, le64(l.tries_len));
    lemma_opens(b, p8, le64(l.tries_off));
    lemma_opens(b, p7, le64(l.spans_len));
    lemma_opens(b, p6, le64(l.spans_off));
    lemma_opens(b, p5, le64(l.text_len));
    lemma_opens(b, p4, le64(l.text_off));
    lemma_opens(b, p3, le64(l.payload_len));
    lemma_opens(b, p2, le64(l.payload_off));
    lemma_opens(b, p1, le32(HEADER_LEN as u32));
    lemma_opens(b, p0, le32(VERSION));
    lemma_le32(b, 9, VERSION);
    lemma_le32(b, 13, HEADER_LEN as u32);
    lemma_le64(b, 17, l.payload_off);
    lemma_le64(b, 25, l.payload_len);
    lemma_le64(b, 33, l.text_off);
    lemma_le64(b, 41, l.text_len);
    lemma_le64(b, 49, l.spans_off);
    lemma_le64(b, 57, l.spans_len);
    lemma_le64(b, 65, l.tries_off);
    lemma_le64(b, 73, l.tries_len);
}

/// The trailing region reads back as it was written.
pub proof fn law_trailer_round_trip(root: Seq<u8>, blob: Seq<u8>, outboard: Seq<u8>)
    requires
        root.len() == 32,
        blob.len() <= u64::MAX,
        outboard.len() <= u64::MAX,
    ensures
        bao_valid(bao_bytes(root, blob, outboard)),
        bao_bytes(root, blob, outboard).take(32) == root,
        u64_at(bao_bytes(root, blob, outboard), 32) == blob.len(),
        bao_bytes(root, blob, outboard).subrange(48, 48 + blob.len() as int) == blob,
        bao_bytes(root, blob, outboard).skip((48 + blob.len()) as int) == outboard,
{
    let b = bao_bytes(root, blob, outboard);
    let m = le64(blob.len() as u64);
    let n = le64(outboard.len() as u64);
    lemma_le_len(0, blob.len() as u64);
    lemma_le_len(0, outboard.len() as u64);
    assert(b.take(b.len() as int) =~= b);
    lemma_opens(b, root + m + n + blob, outboard);
    lemma_opens(b, root + m + n, blob);
    lemma_opens(b, root + m, n);
    lemma_opens(b, root, m);
    lemma_le64(b, 32, blob.len() as u64);
    lemma_le64(b, 40, outboard.len() as u64);
    assert(b.skip((48 + blob.len()) as int) =~= b.subrange(
        (48 + blob.len()) as int,
        b.len() as int,
    ));
}

/// Opening a written file gives back what was written: payload, text, span
/// table, tries, blob, outboard and root. Only a file without a payload does
/// not open. With padding, the text starts at a multiple of 2 MiB.
pub proof fn law_archive_reads_back(
    payload: Seq<u8>,
    text: Seq<u8>,
    spans: Seq<u8>,
    tries: Seq<u8>,
    root: Seq<u8>,
    blob: Seq<u8>,
    outboard: Seq<u8>,
    align: bool,
)
    requires
        tries_valid(tries),
        root.len() == 32,
        blob.len() <= u64::MAX,
        outboard.len() <= u64::MAX,
        tries.len() <= u64::MAX,
        layout_fault(payload.len() as int, text.len() as int, spans.len() as int, align) is None,
    ensures
        ({
            let b = file_bytes(payload, text, spans, tries, bao_bytes(root, blob, outboard), align);
            &&& payload.len() > 0 ==> open_fault(b) is None
            &&& payload.len() == 0 ==> open_fault(b) == Some(Error::InvalidArchive)
            &&& payload_of(b) == payload
            &&& text_of(b) == text
            &&& spans_of(b) == spans
            &&& tries_region_of(b) == tries
            &&& trailer_of(b).take(32) == root
            &&& blob_of(b) == blob
            &&& outboard_of(b) == outboard
            &&& align ==> layout_at(b).text_off % 2097152 == 0
        }),
{
    let bao = bao_bytes(root, blob, outboard);
    let b = file_bytes(payload, text, spans, tries, bao, align);
    let l = layout_for(
        payload.len() as int,
        text.len() as int,
        spans.len() as int,
        tries.len() as int,
        align,
    );
    let pad = zeros((l.text_off - HEADER_LEN - payload.len()) as nat);
    let h = header_bytes(l);
    lemma_header_len(l);
    lemma_regions(h, payload, pad, text, spans, tries, bao);
    law_header_round_trip(l, b);
    law_trailer_round_trip(root, blob, outboard);
    assert(pad.len() == l.text_off - HEADER_LEN - payload.len());
    assert(layout_at(b) == l);
    assert(payload_of(b) == payload);
    assert(text_of(b) == text);
    assert(spans_of(b) == spans);
    assert(tries_region_of(b) == tries);
    assert(trailer_of(b) == bao);
}

/// A written file reads back, span by span.
proof fn lemma_written_reads_back(
    payload: Seq<u8>,
    text: Seq<u8>,
    spans: Seq<TextSpan>,
    tries: Seq<u8>,
    bao: PackedBao,
    align: bool,
)
    requires
        tries_valid(tries),
        bao.blob@.len() <= u64::MAX,
        bao.outboard@.len() <= u64::MAX,
        tries.len() <= u64::MAX,
        layout_fault(
            payload.len() as int,
            text.len() as int,
            spans_bytes(spans).len() as int,
            align,
        ) is None,
    ensures
        reads_back(
            file_bytes(
                payload,
                text,
                spans_bytes(spans),
                tries,
                bao_bytes(bao.root@, bao.blob@, bao.outboard@),
                align,
            ),
            payload,
            text,
            spans,
            bao,
            align,
        ),
{
    let table = spans_bytes(spans);
    law_archive_reads_back(
        payload,
        text,
        table,
        tries,
        bao.root@,
        bao.blob@,
        bao.outboard@,
        align,
    );
    lemma_spans_len(spans);
    assert forall|i: int| 0 <= i < spans.len() implies span_of(
        table.subrange(SPAN_LEN * i, SPAN_LEN * i + SPAN_LEN),
    ) == #[trigger] spans[i] by {
        law_span_table(spans, i);
    }
}

/// Each of seven pieces in a row stands at the sum of the lengths before it.
proof fn lemma_regions(
    h: Seq<u8>,
    payload: Seq<u8>,
    pad: Seq<u8>,
    text: Seq<u8>,
    spans: Seq<u8>,
    tries: Seq<u8>,
    bao: Seq<u8>,
)
    ensures
        ({
            let b = h + payload + pad + text + spans + tries + bao;
            let a1 = h.len() as int;
            let a2 = a1 + payload.len();
            let a3 = a2 + pad.len();
            let a4 = a3 + text.len();
            let a5 = a4 + spans.len();
            let a6 = a5 + tries.len();
            &&& b.take(a1) == h
            &&& b.subrange(a1, a2) == payload
            &&& b.subrange(a3, a4) == text
            &&& b.subrange(a4, a5) == spans
            &&& b.subrange(a5, a6) == tries
            &&& b.skip(a6) == bao
            &&& b.len() == a6 + bao.len()
        }),
{
    let q1 = h + payload;
    let q2 = q1 + pad;
    let q3 = q2 + text;
    let q4 = q3 + spans;
    let q5 = q4 + tries;
    let b = q5 + bao;
    assert(b.take(b.len() as int) =~= b);
    lemma_opens(b, q5, bao);
    lemma_opens(b, q4, tries);
    lemma_opens(b, q3, spans);
    lemma_opens(b, q2, text);
    lemma_opens(b, q1, pad);
    lemma_opens(b, h, payload);
    assert(b.skip(q5.len() as int) =~= b.subrange(q5.len() as int, b.len() as int));
}

proof fn lemma_header_len(l: Layout)
    ensures
        header_bytes(l).len() == HEADER_LEN,
{
    reveal(header_bytes);
    lemma_le_len(VERSION, l.payload_off);
    lemma_le_len(HEADER_LEN as u32, l.payload_len);
    lemma_le_len(0, l.text_off);
    lemma_le_len(0, l.text_len);
    lemma_le_len(0, l.spans_off);
    lemma_le_len(0, l.spans_len);
    lemma_le_len(0, l.tries_off);
    lemma_le_len(0, l.tries_len);
}

/// The text starts at the first page boundary behind the payload, where it is
/// aligned, else right behind it.
pub proof fn law_text_page(value: int, payload_len: int)
    requires
        value >= 0,
        payload_len >= 0,
    ensures
        page_up(value) % 2097152 == 0,
        value <= page_up(value) < value + 2097152,
        text_start(payload_len, false) == 81 + payload_len,
        text_start(payload_len, true) == page_up(81 + payload_len),
{
}

/// The parts of a file follow each other: the header of 81 bytes, the payload,
/// the text, the spans and the index.
pub proof fn law_parts_follow_each_other(
    payload_len: int,
    text_len: int,
    spans_len: int,
    tries_len: int,
    align: bool,
)
    requires
        payload_len >= 0 && text_len >= 0 && spans_len >= 0,
        0 <= tries_len <= u64::MAX,
        layout_fault(payload_len, text_len, spans_len, align) is None,
    ensures
        ({
            let l = layout_for(payload_len, text_len, spans_len, tries_len, align);
            &&& l.payload_off == 81
            &&& l.payload_len == payload_len
            &&& l.payload_off + l.payload_len <= l.text_off
            &&& !align ==> l.text_off == l.payload_off + l.payload_len
            &&& align ==> l.text_off % 2097152 == 0 && l.text_off < l.payload_off + l.payload_len
                + 2097152
            &&& l.text_len == text_len
            &&& l.spans_off == l.text_off + l.text_len
            &&& l.spans_len == spans_len
            &&& l.tries_off == l.spans_off + l.spans_len
            &&& l.tries_len == tries_len
        }),
{
}

/// A layout is refused only where an offset would not fit in 64 bits.
pub proof fn law_layout_fits(payload_len: int, text_len: int, spans_len: int, align: bool)
    requires
        payload_len >= 0 && text_len >= 0 && spans_len >= 0,
    ensures
        81 + payload_len + 2097152 + text_len + spans_len <= u64::MAX ==> layout_fault(
            payload_len,
            text_len,
            spans_len,
            align,
        ) is None,
        81 + payload_len + text_len + spans_len > u64::MAX ==> layout_fault(
            payload_len,
            text_len,
            spans_len,
            align,
        ) is Some,
{
}

/// The places of the header: the magic, the version 1 and the header length
/// 81, and from byte 17 on an offset and a length for each part in turn, all
/// with the lowest byte first.
pub proof fn law_header_places(l: Layout)
    ensures
        ({
            let b = header_bytes(l);
            &&& b.len() == 81
            &&& b.take(9) == MAGIC@
            &&& u32_at(b, 9) == 1
            &&& u32_at(b, 13) == 81
            &&& u64_at(b, 17) == l.payload_off
            &&& u64_at(b, 25) == l.payload_len
            &&& u64_at(b, 33) == l.text_off
            &&& u64_at(b, 41) == l.text_len
            &&& u64_at(b, 49) == l.spans_off
            &&& u64_at(b, 57) == l.spans_len
            &&& u64_at(b, 65) == l.tries_off
            &&& u64_at(b, 73) == l.tries_len
        }),
{
    let b = header_bytes(l);
    assert(b.take(b.len() as int) =~= b);
    law_header_round_trip(l, b);
}

/// The places of a span: its offset and length in 64 bits, its record kind,
/// record and field in 32 bits, and four zero bytes.
pub proof fn law_span_places(s: TextSpan)
    ensures
        span_bytes(s).len() == 32,
        u64_at(span_bytes(s), 0) == s.text_off,
        u64_at(span_bytes(s), 8) == s.len,
        u32_at(span_bytes(s), 16) == s.record_kind,
        u32_at(span_bytes(s), 20) == s.record_index,
        u32_at(span_bytes(s), 24) == s.field_id,
{
    law_span_round_trip(s);
}

/// A file opens when its header is whole and right, every part lies in it, the
/// index and the trailer are sound where they are there, and it has a payload.
pub proof fn law_which_files_open(b: Seq<u8>)
    ensures
        b.len() < 81 ==> open_fault(b) == Some(Error::InvalidArchive),
        b.len() >= 81 && b.take(9) != MAGIC@ ==> open_fault(b) == Some(Error::InvalidMagic),
        b.len() >= 81 && b.take(9) == MAGIC@ && u32_at(b, 9) != 1 ==> open_fault(b) == Some(
            Error::UnsupportedVersion(u32_at(b, 9)),
        ),
        open_fault(b) is None ==> {
            &&& b.len() >= 81 && b.take(9) == MAGIC@ && u32_at(b, 9) == 1 && u32_at(b, 13) == 81
            &&& u64_at(b, 17) + u64_at(b, 25) <= b.len()
            &&& u64_at(b, 33) + u64_at(b, 41) <= b.len()
            &&& u64_at(b, 49) + u64_at(b, 57) <= b.len()
            &&& u64_at(b, 65) + u64_at(b, 73) <= b.len()
            &&& u64_at(b, 25) > 0
        },
        b.len() >= 81 && b.take(9) == MAGIC@ && u32_at(b, 9) == 1 && u32_at(b, 13) == 81 && u64_at(
            b,
            17,
        ) + u64_at(b, 25) <= b.len() && u64_at(b, 33) + u64_at(b, 41) <= b.len() && u64_at(b, 49)
            + u64_at(b, 57) <= b.len() && u64_at(b, 65) == b.len() && u64_at(b, 73) == 0 && u64_at(
            b,
            25,
        ) > 0 ==> open_fault(b) is None,
{
}

/// The magic of a file: the name in capitals and a one.
pub proof fn law_magic()
    ensures
        MAGIC@ == seq![77u8, 65, 74, 69, 83, 84, 73, 67, 1],
{
    assert(MAGIC@ =~= seq![77u8, 65, 74, 69, 83, 84, 73, 67, 1]);
}

} // verus!
