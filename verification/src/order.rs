//! The order of strings by the bytes of their UTF-8 encoding, and stable
//! sorting by a string key.
use vstd::prelude::*;
use vstd::utf8::{encode_utf8, encode_utf8_decode_utf8};

verus! {

/// `a` comes before `b` byte by byte.
pub open spec fn bytes_before(a: Seq<u8>, b: Seq<u8>) -> bool
    decreases a.len(),
{
    if b.len() == 0 {
        false
    } else if a.len() == 0 {
        true
    } else if a[0] != b[0] {
        a[0] < b[0]
    } else {
        bytes_before(a.drop_first(), b.drop_first())
    }
}

/// `a` comes before `b` in the order of strings.
pub open spec fn before(a: Seq<char>, b: Seq<char>) -> bool {
    bytes_before(encode_utf8(a), encode_utf8(b))
}

/// Strictly ascending strings.
pub open spec fn ascending(s: Seq<Seq<char>>) -> bool {
    forall|i: int, j: int| 0 <= i < j < s.len() ==> before(#[trigger] s[i], #[trigger] s[j])
}

/// Nothing comes before itself.
pub proof fn lemma_bytes_irreflexive(a: Seq<u8>)
    ensures
        !bytes_before(a, a),
    decreases a.len(),
{
    if a.len() > 0 {
        lemma_bytes_irreflexive(a.drop_first());
    }
}

/// The order of bytes is transitive.
pub proof fn lemma_bytes_transitive(a: Seq<u8>, b: Seq<u8>, c: Seq<u8>)
    requires
        bytes_before(a, b),
        bytes_before(b, c),
    ensures
        bytes_before(a, c),
    decreases a.len(),
{
    if a.len() > 0 && b.len() > 0 && c.len() > 0 && a[0] == b[0] && b[0] == c[0] {
        lemma_bytes_transitive(a.drop_first(), b.drop_first(), c.drop_first());
    }
}

/// Of two different byte strings one comes first.
pub proof fn lemma_bytes_total(a: Seq<u8>, b: Seq<u8>)
    ensures
        bytes_before(a, b) || bytes_before(b, a) || a == b,
    decreases a.len(),
{
    if a.len() > 0 && b.len() > 0 && a[0] == b[0] {
        lemma_bytes_total(a.drop_first(), b.drop_first());
        if a.drop_first() == b.drop_first() {
            assert(a =~= seq![a[0]] + a.drop_first());
            assert(b =~= seq![b[0]] + b.drop_first());
        }
    } else if a.len() == 0 && b.len() == 0 {
        assert(a =~= b);
    }
}

/// Different strings have different encodings.
pub proof fn lemma_encode_injective(a: Seq<char>, b: Seq<char>)
    requires
        encode_utf8(a) == encode_utf8(b),
    ensures
        a == b,
{
    encode_utf8_decode_utf8(a);
    encode_utf8_decode_utf8(b);
}

/// The order of strings is strict, transitive and total.
pub proof fn law_string_order(a: Seq<char>, b: Seq<char>, c: Seq<char>)
    ensures
        !before(a, a),
        before(a, b) && before(b, c) ==> before(a, c),
        before(a, b) || before(b, a) || a == b,
        !(before(a, b) && before(b, a)),
{
    lemma_bytes_irreflexive(encode_utf8(a));
    lemma_bytes_total(encode_utf8(a), encode_utf8(b));
    if encode_utf8(a) == encode_utf8(b) {
        lemma_encode_injective(a, b);
    }
    if before(a, b) && before(b, c) {
        lemma_bytes_transitive(encode_utf8(a), encode_utf8(b), encode_utf8(c));
    }
    if before(a, b) && before(b, a) {
        lemma_bytes_transitive(encode_utf8(a), encode_utf8(b), encode_utf8(a));
    }
}

/// Whether `x` comes before `y`.
pub fn bytes_less(x: &[u8], y: &[u8]) -> (r: bool)
    ensures
        r == bytes_before(x@, y@),
{
    let mut i: usize = 0;
    proof {
        assert(x@.skip(0) == x@);
        assert(y@.skip(0) == y@);
    }
    loop
        invariant
            i <= x@.len(),
            i <= y@.len(),
            x@.len() == x.len(),
            y@.len() == y.len(),
            bytes_before(x@, y@) == bytes_before(x@.skip(i as int), y@.skip(i as int)),
        decreases x.len() - i,
    {
        if i == y.len() {
            return false;
        }
        if i == x.len() {
            return true;
        }
        if x[i] != y[i] {
            return x[i] < y[i];
        }
        proof {
            assert(x@.skip(i as int).drop_first() == x@.skip(i + 1));
            assert(y@.skip(i as int).drop_first() == y@.skip(i + 1));
        }
        i = i + 1;
    }
}

/// Whether `a` comes before `b`.
pub fn is_before(a: &str, b: &str) -> (r: bool)
    ensures
        r == before(a@, b@),
{
    bytes_less(a.as_bytes(), b.as_bytes())
}

/// Position `i` sorts before position `j`: by key, then by position.
pub open spec fn sorts_before(keys: Seq<String>, i: int, j: int) -> bool {
    before(keys[i]@, keys[j]@) || (keys[i]@ == keys[j]@ && i < j)
}

/// `r` lists the positions `lo..hi` in stable key order.
pub open spec fn sorted_positions(keys: Seq<String>, lo: int, hi: int, r: Seq<usize>) -> bool {
    &&& r.len() == hi - lo
    &&& forall|x: usize| #[trigger] r.contains(x) <==> lo <= x < hi
    &&& forall|i: int, j: int|
        0 <= i < j < r.len() ==> sorts_before(keys, #[trigger] r[i] as int, #[trigger] r[j] as int)
}

/// Merges two runs of positions.
fn merge(keys: &Vec<String>, a: &Vec<usize>, b: &Vec<usize>, Ghost(lo): Ghost<int>, Ghost(
    mid,
): Ghost<int>, Ghost(hi): Ghost<int>) -> (r: Vec<usize>)
    requires
        0 <= lo <= mid <= hi <= keys@.len(),
        sorted_positions(keys@, lo, mid, a@),
        sorted_positions(keys@, mid, hi, b@),
    ensures
        sorted_positions(keys@, lo, hi, r@),
{
    let mut out: Vec<usize> = Vec::new();
    let mut i: usize = 0;
    let mut j: usize = 0;
    while i < a.len() || j < b.len()
        invariant
            i <= a@.len(),
            j <= b@.len(),
            a@.len() == a.len(),
            b@.len() == b.len(),
            0 <= lo <= mid <= hi <= keys@.len(),
            sorted_positions(keys@, lo, mid, a@),
            sorted_positions(keys@, mid, hi, b@),
            out@.len() == i + j,
            forall|x: usize|
                #[trigger] out@.contains(x) <==> a@.take(i as int).contains(x) || b@.take(
                    j as int,
                ).contains(x),
            forall|p: int, q: int|
                0 <= p < q < out@.len() ==> sorts_before(
                    keys@,
                    #[trigger] out@[p] as int,
                    #[trigger] out@[q] as int,
                ),
            forall|p: int, q: int|
                0 <= p < out@.len() && i <= q < a@.len() ==> sorts_before(
                    keys@,
                    #[trigger] out@[p] as int,
                    #[trigger] a@[q] as int,
                ),
            forall|p: int, q: int|
                0 <= p < out@.len() && j <= q < b@.len() ==> sorts_before(
                    keys@,
                    #[trigger] out@[p] as int,
                    #[trigger] b@[q] as int,
                ),
        decreases a.len() - i + (b.len() - j),
    {
        let ghost was = out@;
        proof {
            assert forall|x: int| 0 <= x < a@.len() implies lo <= #[trigger] a@[x] < mid by {
                assert(a@.contains(a@[x]));
            }
            assert forall|x: int| 0 <= x < b@.len() implies mid <= #[trigger] b@[x] < hi by {
                assert(b@.contains(b@[x]));
            }
        }
        let from_b = if i == a.len() {
            true
        } else if j == b.len() {
            false
        } else {
            is_before(keys[b[j]].as_str(), keys[a[i]].as_str())
        };
        if from_b {
            proof {
                if i < a@.len() {
                    assert forall|q: int| i <= q < a@.len() implies sorts_before(
                        keys@,
                        b@[j as int] as int,
                        #[trigger] a@[q] as int,
                    ) by {
                        let x = keys@[b@[j as int] as int]@;
                        let y = keys@[a@[i as int] as int]@;
                        let z = keys@[a@[q] as int]@;
                        law_string_order(x, y, z);
                        if q > i {
                            assert(sorts_before(keys@, a@[i as int] as int, a@[q] as int));
                        }
                    }
                }
            }
            out.push(b[j]);
            proof {
                lemma_take_push(b@, j as int);
                lemma_push_contains(was, b@[j as int]);
                lemma_push_contains(b@.take(j as int), b@[j as int]);
            }
            j = j + 1;
        } else {
            proof {
                if j < b@.len() {
                    assert forall|q: int| j <= q < b@.len() implies sorts_before(
                        keys@,
                        a@[i as int] as int,
                        #[trigger] b@[q] as int,
                    ) by {
                        let x = keys@[a@[i as int] as int]@;
                        let y = keys@[b@[j as int] as int]@;
                        let z = keys@[b@[q] as int]@;
                        law_string_order(x, y, z);
                        if q > j {
                            assert(sorts_before(keys@, b@[j as int] as int, b@[q] as int));
                        }
                    }
                }
            }
            out.push(a[i]);
            proof {
                lemma_take_push(a@, i as int);
                lemma_push_contains(was, a@[i as int]);
                lemma_push_contains(a@.take(i as int), a@[i as int]);
            }
            i = i + 1;
        }
    }
    proof {
        assert(a@.take(a@.len() as int) =~= a@);
        assert(b@.take(b@.len() as int) =~= b@);
    }
    out
}

proof fn lemma_take_push(s: Seq<usize>, i: int)
    requires
        0 <= i < s.len(),
    ensures
        s.take(i + 1) == s.take(i).push(s[i]),
{
    assert(s.take(i + 1) =~= s.take(i).push(s[i]));
}

proof fn lemma_push_contains(s: Seq<usize>, v: usize)
    ensures
        forall|x: usize| #[trigger] s.push(v).contains(x) <==> s.contains(x) || x == v,
{
    assert forall|x: usize| #[trigger] s.push(v).contains(x) <==> s.contains(x) || x == v by {
        if s.contains(x) {
            let k = choose|k: int| 0 <= k < s.len() && s[k] == x;
            assert(s.push(v)[k] == x);
        }
        if x == v {
            assert(s.push(v)[s.len() as int] == x);
        }
    }
}

/// The positions `lo..hi` in stable key order.
fn sort_range(keys: &Vec<String>, lo: usize, hi: usize) -> (r: Vec<usize>)
    requires
        lo <= hi <= keys@.len(),
    ensures
        sorted_positions(keys@, lo as int, hi as int, r@),
    decreases hi - lo,
{
    if hi - lo == 0 {
        let out: Vec<usize> = Vec::new();
        return out;
    }
    if hi - lo == 1 {
        let mut out: Vec<usize> = Vec::new();
        out.push(lo);
        proof {
            assert forall|x: usize| #[trigger] out@.contains(x) <==> lo <= x < hi by {
                assert(out@[0] == lo);
            }
        }
        return out;
    }
    let mid = lo + (hi - lo) / 2;
    let a = sort_range(keys, lo, mid);
    let b = sort_range(keys, mid, hi);
    merge(keys, &a, &b, Ghost(lo as int), Ghost(mid as int), Ghost(hi as int))
}

/// The positions of `keys` in stable key order.
pub fn sort_order(keys: &Vec<String>) -> (r: Vec<usize>)
    ensures
        sorted_positions(keys@, 0, keys@.len() as int, r@),
{
    sort_range(keys, 0, keys.len())
}

/// The order of strings is that of their bytes: at the first byte where two
/// differ, the smaller one goes first, and a string goes before what it
/// opens.
pub proof fn law_byte_order(a: Seq<u8>, b: Seq<u8>, k: int)
    requires
        0 <= k <= a.len(),
        k <= b.len(),
        a.take(k) == b.take(k),
        k < a.len() && k < b.len() ==> a[k] != b[k],
    ensures
        k < a.len() && k < b.len() ==> bytes_before(a, b) == (a[k] < b[k]),
        k == a.len() && k < b.len() ==> bytes_before(a, b),
        k == b.len() ==> !bytes_before(a, b),
    decreases k,
{
    if k > 0 {
        let (x, y) = (a.drop_first(), b.drop_first());
        assert(a[0] == a.take(k)[0] && b[0] == b.take(k)[0]);
        assert(x.take(k - 1) =~= a.take(k).drop_first());
        assert(y.take(k - 1) =~= b.take(k).drop_first());
        law_byte_order(x, y, k - 1);
    }
}

} // verus!
