//! Little-endian integers in byte sequences.
use vstd::prelude::*;

verus! {

/// Little-endian bytes of a 32-bit number.
#[verifier::opaque]
pub open spec fn le32(x: u32) -> Seq<u8> {
    seq![
        (x % 256) as u8,
        (x / 256 % 256) as u8,
        (x / 65536 % 256) as u8,
        (x / 16777216 % 256) as u8,
    ]
}

/// Little-endian bytes of a 64-bit number.
#[verifier::opaque]
pub open spec fn le64(x: u64) -> Seq<u8> {
    le32((x % 0x1_0000_0000) as u32) + le32((x / 0x1_0000_0000) as u32)
}

/// The 32-bit number stored at `off`.
#[verifier::opaque]
pub open spec fn u32_at(b: Seq<u8>, off: int) -> u32 {
    (b[off] + 256 * b[off + 1] + 65536 * b[off + 2] + 16777216 * b[off + 3]) as u32
}

/// The 64-bit number stored at `off`.
#[verifier::opaque]
pub open spec fn u64_at(b: Seq<u8>, off: int) -> u64 {
    (u32_at(b, off) + 0x1_0000_0000 * u32_at(b, off + 4)) as u64
}

/// `n` zero bytes.
pub open spec fn zeros(n: nat) -> Seq<u8> {
    Seq::new(n, |i: int| 0u8)
}

/// A 32-bit number takes four bytes, a 64-bit number eight.
pub proof fn lemma_le_len(x: u32, y: u64)
    ensures
        le32(x).len() == 4,
        le64(y).len() == 8,
{
    reveal(le32);
    reveal(le64);
}

/// Reading a 32-bit number gives back what was written.
pub proof fn lemma_le32(b: Seq<u8>, off: int, x: u32)
    requires
        0 <= off,
        off + 4 <= b.len(),
        b.subrange(off, off + 4) == le32(x),
    ensures
        u32_at(b, off) == x,
{
    reveal(le32);
    reveal(u32_at);
    let s = b.subrange(off, off + 4);
    assert(s[0] == b[off] && s[1] == b[off + 1] && s[2] == b[off + 2] && s[3] == b[off + 3]);
    let y: int = x as int;
    assert(y == y % 256 + 256 * (y / 256 % 256) + 65536 * (y / 65536 % 256) + 16777216 * (y
        / 16777216 % 256));
}

/// Reading a 64-bit number gives back what was written.
pub proof fn lemma_le64(b: Seq<u8>, off: int, x: u64)
    requires
        0 <= off,
        off + 8 <= b.len(),
        b.subrange(off, off + 8) == le64(x),
    ensures
        u64_at(b, off) == x,
{
    reveal(le64);
    reveal(u64_at);
    lemma_le_len(0, x);
    let s = b.subrange(off, off + 8);
    let lo = (x % 0x1_0000_0000) as u32;
    let hi = (x / 0x1_0000_0000) as u32;
    lemma_le_len(lo, x);
    lemma_le_len(hi, x);
    assert(b.subrange(off, off + 4) =~= le32(lo)) by {
        assert forall|i: int| 0 <= i < 4 implies b.subrange(off, off + 4)[i] == le32(lo)[i] by {
            assert(s[i] == b[off + i]);
        }
    }
    assert(b.subrange(off + 4, off + 8) =~= le32(hi)) by {
        assert forall|i: int| 0 <= i < 4 implies b.subrange(off + 4, off + 8)[i] == le32(
            hi,
        )[i] by {
            assert(s[i + 4] == b[off + 4 + i]);
        }
    }
    lemma_le32(b, off, lo);
    lemma_le32(b, off + 4, hi);
}

/// Where `b` opens with `p + x`, it opens with `p`, and `x` follows.
pub proof fn lemma_opens(b: Seq<u8>, p: Seq<u8>, x: Seq<u8>)
    requires
        p.len() + x.len() <= b.len(),
        b.take((p.len() + x.len()) as int) == p + x,
    ensures
        b.take(p.len() as int) == p,
        b.subrange(p.len() as int, (p.len() + x.len()) as int) == x,
{
    let q = b.take((p.len() + x.len()) as int);
    assert(b.take(p.len() as int) =~= q.take(p.len() as int));
    assert((p + x).take(p.len() as int) =~= p);
    assert(b.subrange(p.len() as int, (p.len() + x.len()) as int) =~= q.skip(p.len() as int));
    assert((p + x).skip(p.len() as int) =~= x);
}

/// A range of a range.
pub proof fn lemma_range_of_range(b: Seq<u8>, from: int, to: int, x: int, y: int)
    requires
        0 <= from <= to <= b.len(),
        0 <= x <= y <= to - from,
    ensures
        b.subrange(from, to).subrange(x, y) == b.subrange(from + x, from + y),
{
    assert(b.subrange(from, to).subrange(x, y) =~= b.subrange(from + x, from + y));
}

/// A range inside a prefix.
pub proof fn lemma_prefix_range(b: Seq<u8>, p: Seq<u8>, from: int, to: int)
    requires
        p.len() <= b.len(),
        b.take(p.len() as int) == p,
        0 <= from <= to <= p.len(),
    ensures
        b.subrange(from, to) == p.subrange(from, to),
{
    assert(b.subrange(from, to) =~= b.take(p.len() as int).subrange(from, to));
}

/// Appends a 32-bit number.
pub fn put_u32(out: &mut Vec<u8>, x: u32)
    ensures
        final(out)@ == old(out)@ + le32(x),
{
    out.push((x % 256) as u8);
    out.push((x / 256 % 256) as u8);
    out.push((x / 65536 % 256) as u8);
    out.push((x / 16777216 % 256) as u8);
    proof {
        reveal(le32);
        assert(out@ =~= old(out)@ + le32(x));
    }
}

/// Appends a 64-bit number.
pub fn put_u64(out: &mut Vec<u8>, x: u64)
    ensures
        final(out)@ == old(out)@ + le64(x),
{
    put_u32(out, (x % 0x1_0000_0000) as u32);
    put_u32(out, (x / 0x1_0000_0000) as u32);
    proof {
        reveal(le64);
        assert(out@ =~= old(out)@ + le64(x));
    }
}

/// Appends bytes.
pub fn put_bytes(out: &mut Vec<u8>, bytes: &[u8])
    ensures
        final(out)@ == old(out)@ + bytes@,
{
    out.extend_from_slice(bytes);
    proof {
        assert(out@ =~= old(out)@ + bytes@);
    }
}

/// Appends `n` zero bytes.
pub fn put_zeros(out: &mut Vec<u8>, n: usize)
    ensures
        final(out)@ == old(out)@ + zeros(n as nat),
{
    let mut i: usize = 0;
    proof {
        assert(out@ =~= old(out)@ + zeros(0));
    }
    while i < n
        invariant
            i <= n,
            out@ == old(out)@ + zeros(i as nat),
        decreases n - i,
    {
        out.push(0);
        proof {
            assert(out@ =~= old(out)@ + zeros((i + 1) as nat));
        }
        i = i + 1;
    }
}

/// The 32-bit number at `off`, when the bytes are there.
pub fn read_u32(bytes: &[u8], off: usize) -> (r: Option<u32>)
    ensures
        match r {
            Some(x) => off + 4 <= bytes@.len() && x == u32_at(bytes@, off as int),
            None => off + 4 > bytes@.len(),
        },
{
    if bytes.len() < 4 || off > bytes.len() - 4 {
        return None;
    }
    proof {
        reveal(u32_at);
    }
    let a = bytes[off] as u32;
    let b = bytes[off + 1] as u32;
    let c = bytes[off + 2] as u32;
    let d = bytes[off + 3] as u32;
    Some(a + 256 * b + 65536 * c + 16777216 * d)
}

/// The 64-bit number at `off`, when the bytes are there.
pub fn read_u64(bytes: &[u8], off: usize) -> (r: Option<u64>)
    ensures
        match r {
            Some(x) => off + 8 <= bytes@.len() && x == u64_at(bytes@, off as int),
            None => off + 8 > bytes@.len(),
        },
{
    if bytes.len() < 8 || off > bytes.len() - 8 {
        return None;
    }
    proof {
        reveal(u64_at);
    }
    match (read_u32(bytes, off), read_u32(bytes, off + 4)) {
        (Some(lo), Some(hi)) => Some(lo as u64 + 0x1_0000_0000 * (hi as u64)),
        _ => None,
    }
}

/// Whether two byte slices hold the same bytes.
pub fn same_bytes(a: &[u8], b: &[u8]) -> (r: bool)
    ensures
        r == (a@ == b@),
{
    if a.len() != b.len() {
        return false;
    }
    let mut i: usize = 0;
    while i < a.len()
        invariant
            i <= a@.len() == b@.len(),
            a@.len() == a.len(),
            forall|j: int| 0 <= j < i ==> a@[j] == b@[j],
        decreases a.len() - i,
    {
        if a[i] != b[i] {
            return false;
        }
        i = i + 1;
    }
    proof {
        assert(a@ =~= b@);
    }
    true
}

/// The bytes `off..off + len`, when they are there.
pub fn slice_of(bytes: &[u8], off: usize, len: usize) -> (r: Option<&[u8]>)
    ensures
        match r {
            Some(s) => off + len <= bytes@.len() && s@ == bytes@.subrange(
                off as int,
                off + len,
            ),
            None => off + len > bytes@.len(),
        },
{
    if len > bytes.len() || off > bytes.len() - len {
        None
    } else {
        Some(vstd::slice::slice_subrange(bytes, off, off + len))
    }
}

/// Numbers are written with their lowest byte first, and read back.
pub proof fn law_little_endian(x: u32, y: u64)
    ensures
        le32(x).len() == 4,
        le32(x)[0] + 256 * le32(x)[1] + 65536 * le32(x)[2] + 16777216 * le32(x)[3] == x,
        u32_at(le32(x), 0) == x,
        le64(y).len() == 8,
        le64(y).take(4) == le32((y % 0x1_0000_0000) as u32),
        le64(y).skip(4) == le32((y / 0x1_0000_0000) as u32),
        u64_at(le64(y), 0) == y,
{
    lemma_le_len(x, y);
    assert(le32(x).subrange(0, 4) =~= le32(x));
    assert(le64(y).subrange(0, 8) =~= le64(y));
    lemma_le32(le32(x), 0, x);
    lemma_le64(le64(y), 0, y);
    reveal(le32);
    reveal(le64);
    let z: int = x as int;
    assert(z % 256 + 256 * (z / 256 % 256) + 65536 * (z / 65536 % 256) + 16777216 * (z / 16777216
        % 256) == z);
    let (lo, hi) = (le32((y % 0x1_0000_0000) as u32), le32((y / 0x1_0000_0000) as u32));
    assert(le64(y).take(4) =~= lo);
    assert(le64(y).skip(4) =~= hi);
}

/// Zeros are zeros.
pub proof fn law_zeros(n: nat, i: int)
    requires
        0 <= i < n,
    ensures
        zeros(n).len() == n,
        zeros(n)[i] == 0,
{
}

} // verus!
