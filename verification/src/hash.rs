//! Tree hashes of canonical conversation bytes and uploaded file bytes.
//!
//! The identity of a byte string is the root of its BLAKE3 tree with
//! 1024-byte blocks. One concatenated blob of conversation encodings and
//! uploaded file bodies is covered by one outboard.
use vstd::prelude::*;

use crate::bytes::slice_of;
use crate::Error;

verus! {

/// Prefix of the trailing region: root, blob length, outboard length.
pub const BAO_PREFIX_LEN: usize = 48;

/// Length of a tree root.
pub const ROOT_LEN: usize = 32;

/// Root of the tree over a byte string.
#[derive(Clone, Copy, Debug, PartialEq, Eq)]
pub struct Digest {
    pub root: [u8; 32],
}

/// Concatenated canonical bytes plus the single outboard that covers them.
#[derive(Clone, Debug, PartialEq, Eq)]
pub struct PackedBao {
    pub root: [u8; 32],
    pub blob: Vec<u8>,
    pub outboard: Vec<u8>,
}

/// Root and post-order outboard of the tree over `data` with 1024-byte
/// blocks, as `bao_tree` computes them.
pub uninterp spec fn bao_tree_of(data: Seq<u8>) -> (Seq<u8>, Seq<u8>);

/// Calls `bao_tree::io::outboard::PostOrderMemOutboard::create` with block
/// size zero (1024-byte blocks). The root and the outboard are functions of
/// the bytes alone.
#[verifier::external_body]
fn bao_create(data: &[u8]) -> (r: ([u8; 32], Vec<u8>))
    ensures
        (r.0@, r.1@) == bao_tree_of(data@),
{
    let outboard = bao_tree::io::outboard::PostOrderMemOutboard::create(
        data,
        bao_tree::BlockSize::ZERO,
    );
    (*outboard.root.as_bytes(), outboard.data)
}

/// Lowercase hexadecimal digit.
pub open spec fn hex_digit(d: int) -> char {
    if d < 10 {
        (48 + d) as char
    } else {
        (87 + d) as char
    }
}

/// Lowercase hexadecimal notation, two digits for each byte.
pub open spec fn hex(bytes: Seq<u8>) -> Seq<char> {
    Seq::new(
        2 * bytes.len(),
        |i: int|
            if i % 2 == 0 {
                hex_digit(bytes[i / 2] as int / 16)
            } else {
                hex_digit(bytes[i / 2] as int % 16)
            },
    )
}

fn hex_digit_of(d: u8) -> (c: char)
    requires
        d < 16,
    ensures
        c == hex_digit(d as int),
{
    if d < 10 {
        (48 + d) as char
    } else {
        (87 + d) as char
    }
}

impl Digest {
    /// Lowercase hex of the 32-byte root. Used as a response id prefix.
    pub fn to_hex(self) -> (r: String)
        ensures
            r@ == hex(self.root@),
            r@.len() == 2 * ROOT_LEN,
    {
        let mut out = String::new();
        let mut i: usize = 0;
        while i < 32
            invariant
                i <= 32,
                out@ == hex(self.root@).take(2 * i),
            decreases 32 - i,
        {
            let byte = self.root[i];
            out.push(hex_digit_of(byte / 16));
            out.push(hex_digit_of(byte % 16));
            proof {
                assert(out@ =~= hex(self.root@).take(2 * (i + 1)));
            }
            i = i + 1;
        }
        proof {
            assert(hex(self.root@).take(64) =~= hex(self.root@));
        }
        out
    }
}

/// Tree root of `data`.
pub fn hash_bytes(data: &[u8]) -> (r: Digest)
    ensures
        r.root@ == bao_tree_of(data@).0,
{
    let (root, _) = bao_create(data);
    Digest { root }
}

/// Tree root of a stored byte range of the blob.
pub fn hash_range(blob: &[u8], off: u64, len: u64) -> (r: Result<Digest, Error>)
    ensures
        match r {
            Ok(d) => off + len <= blob@.len() && d.root@ == bao_tree_of(
                blob@.subrange(off as int, off + len),
            ).0,
            Err(e) => off + len > blob@.len() && e == Error::InvalidArchive,
        },
{
    match blob_slice(blob, off, len) {
        Ok(slice) => Ok(hash_bytes(slice)),
        Err(e) => Err(e),
    }
}

/// The bytes `off..off + len` of the blob.
pub fn blob_slice(blob: &[u8], off: u64, len: u64) -> (r: Result<&[u8], Error>)
    ensures
        match r {
            Ok(s) => off + len <= blob@.len() && s@ == blob@.subrange(off as int, off + len),
            Err(e) => off + len > blob@.len() && e == Error::InvalidArchive,
        },
{
    let size: usize = blob.len();
    if off > size as u64 || len > size as u64 {
        return Err(Error::InvalidArchive);
    }
    match slice_of(blob, off as usize, len as usize) {
        Some(s) => Ok(s),
        None => Err(Error::InvalidArchive),
    }
}

/// One outboard covering `blob`.
pub fn pack_blob(blob: Vec<u8>) -> (r: PackedBao)
    ensures
        r.blob@ == blob@,
        (r.root@, r.outboard@) == bao_tree_of(blob@),
{
    let (root, outboard) = bao_create(blob.as_slice());
    PackedBao { root, blob, outboard }
}

/// The value of a hexadecimal digit.
pub open spec fn nibble(c: char) -> int {
    if '0' <= c <= '9' {
        c as int - '0' as int
    } else if 'a' <= c <= 'f' {
        c as int - 'a' as int + 10
    } else {
        -1
    }
}

/// Two hexadecimal digits stand for each byte, the higher one first.
pub proof fn law_hex(bytes: Seq<u8>, i: int)
    requires
        0 <= i < bytes.len(),
    ensures
        hex(bytes).len() == 2 * bytes.len(),
        0 <= nibble(hex(bytes)[2 * i]) < 16,
        0 <= nibble(hex(bytes)[2 * i + 1]) < 16,
        16 * nibble(hex(bytes)[2 * i]) + nibble(hex(bytes)[2 * i + 1]) == bytes[i],
{
    assert((2 * i) / 2 == i && (2 * i + 1) / 2 == i);
    assert((2 * i) % 2 == 0 && (2 * i + 1) % 2 == 1);
}

} // verus!
