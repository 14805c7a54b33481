//! UTF-8: lengths, boundaries and slices of text by byte position.
use vstd::prelude::*;
use vstd::utf8::{
    decode_utf8, encode_scalar, encode_utf8, encode_utf8_decode_utf8, encode_utf8_valid_utf8,
    is_char_boundary, is_char_boundary_iff_not_is_continuation_byte,
    is_char_boundary_start_end_of_seq, valid_utf8, valid_utf8_split,
};

verus! {

/// Byte length of the encoding.
pub open spec fn byte_len(s: Seq<char>) -> nat {
    encode_utf8(s).len()
}

/// Encoding distributes over concatenation.
pub proof fn lemma_encode_concat(a: Seq<char>, b: Seq<char>)
    ensures
        encode_utf8(a + b) == encode_utf8(a) + encode_utf8(b),
    decreases a.len(),
{
    if a.len() == 0 {
        assert(a + b =~= b);
        assert(encode_utf8(a) =~= Seq::<u8>::empty());
        assert(Seq::<u8>::empty() + encode_utf8(b) =~= encode_utf8(b));
    } else {
        assert((a + b).drop_first() =~= a.drop_first() + b);
        lemma_encode_concat(a.drop_first(), b);
        assert(encode_scalar(a[0] as u32) + (encode_utf8(a.drop_first()) + encode_utf8(b))
            =~= encode_scalar(a[0] as u32) + encode_utf8(a.drop_first()) + encode_utf8(b));
    }
}

/// Encoding of one more character.
pub proof fn lemma_encode_push(a: Seq<char>, c: char)
    ensures
        encode_utf8(a.push(c)) == encode_utf8(a) + encode_scalar(c as u32),
{
    assert(a.push(c) =~= a + seq![c]);
    lemma_encode_concat(a, seq![c]);
    assert(seq![c].drop_first() =~= Seq::<char>::empty());
    assert(encode_utf8(seq![c]) =~= encode_scalar(c as u32)) by {
        reveal_with_fuel(encode_utf8, 2);
    }
}

/// Byte length of one character.
pub fn char_bytes(c: char) -> (n: usize)
    ensures
        n == encode_scalar(c as u32).len(),
        1 <= n <= 4,
{
    let u = c as u32;
    if u < 0x80 {
        1
    } else if u < 0x800 {
        2
    } else if u < 0x10000 {
        3
    } else {
        4
    }
}

/// The characters of the bytes `off..off + len` of a text, when both ends
/// are character boundaries.
pub open spec fn text_range(text: Seq<char>, off: int, len: int) -> Option<Seq<char>> {
    let b = encode_utf8(text);
    if off + len <= b.len() && is_char_boundary(b, off) && is_char_boundary(b, off + len) {
        Some(decode_utf8(b.subrange(off, off + len)))
    } else {
        None
    }
}

/// The slice of a text at the bytes `off..off + len`.
pub fn str_range(text: &str, off: usize, len: usize) -> (r: Option<&str>)
    ensures
        match r {
            Some(s) => text_range(text@, off as int, len as int) == Some(s@) && encode_utf8(s@)
                == encode_utf8(text@).subrange(off as int, off + len),
            None => text_range(text@, off as int, len as int) is None,
        },
{
    let bytes = text.as_bytes();
    let size: usize = bytes.len();
    proof {
        encode_utf8_valid_utf8(text@);
    }
    if len > size || off > size - len {
        return None;
    }
    let end: usize = off + len;
    if !text.is_char_boundary(off) || !text.is_char_boundary(end) {
        return None;
    }
    let tail = text.split_at(off).1;
    proof {
        let b = encode_utf8(text@);
        let t = b.subrange(off as int, b.len() as int);
        assert(encode_utf8(tail@) == t);
        valid_utf8_split(b, off as int);
        assert(is_char_boundary(t, len as int)) by {
            if end == size {
                is_char_boundary_start_end_of_seq(t);
            } else {
                is_char_boundary_iff_not_is_continuation_byte(b, end as int);
                assert(t[len as int] == b[end as int]);
                is_char_boundary_iff_not_is_continuation_byte(t, len as int);
            }
        }
    }
    let s = tail.split_at(len).0;
    proof {
        let b = encode_utf8(text@);
        assert(encode_utf8(s@) =~= b.subrange(off as int, off + len));
        encode_utf8_decode_utf8(s@);
    }
    Some(s)
}

/// `std::str::from_utf8` accepts exactly the valid UTF-8 byte strings and
/// hands back the text that they encode.
#[verifier::external_body]
pub(crate) fn utf8_text(bytes: &[u8]) -> (r: Option<&str>)
    ensures
        match r {
            Some(s) => valid_utf8(bytes@) && encode_utf8(s@) == bytes@,
            None => !valid_utf8(bytes@),
        },
{
    std::str::from_utf8(bytes).ok()
}

} // verus!
