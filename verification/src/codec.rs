//! Identity hashes of records.
//!
//! The caller supplies the encoding of a record as a function. All that is
//! asked of it is that records with the same contents have the same
//! encoding.
use vstd::prelude::*;

use crate::hash::{bao_tree_of, hash_bytes, Digest};
use crate::records::{response_views, ConversationItem, ResponseItem, ResponseItemView};
use crate::Error;

verus! {

/// Records with the same contents have the same encoding.
pub open spec fn faithful<T: View, F: Fn(&T) -> Result<Vec<u8>, Error>>(f: F) -> bool {
    &&& forall|x: T| #[trigger] call_requires(f, (&x,))
    &&& forall|x: T, y: T, v: Vec<u8>, w: Vec<u8>|
        x@ == y@ && #[trigger] call_ensures(f, (&x,), Ok(v)) && #[trigger] call_ensures(
            f,
            (&y,),
            Ok(w),
        ) ==> v@ == w@
}

/// A record with the contents `x` can have the encoding `b`.
pub open spec fn encodes_to<T: View, F: Fn(&T) -> Result<Vec<u8>, Error>>(
    f: F,
    x: T::V,
    b: Seq<u8>,
) -> bool {
    exists|y: T, v: Vec<u8>|
        y@ == x && #[trigger] call_ensures(f, (&y,), Ok(v)) && v@ == b
}

/// The encoding of records with the contents `x`.
pub open spec fn encoding<T: View, F: Fn(&T) -> Result<Vec<u8>, Error>>(f: F, x: T::V) -> Seq<u8> {
    choose|b: Seq<u8>| encodes_to::<T, F>(f, x, b)
}

/// The encoding as a function of the contents.
pub open spec fn encoder<T: View, F: Fn(&T) -> Result<Vec<u8>, Error>>(f: F) -> spec_fn(
    T::V,
) -> Seq<u8> {
    |x: T::V| encoding::<T, F>(f, x)
}

/// Encoding a record with the contents `x` failed with this error.
pub open spec fn fails_on<T: View, F: Fn(&T) -> Result<Vec<u8>, Error>>(
    f: F,
    x: T::V,
    e: Error,
) -> bool {
    exists|y: T| y@ == x && #[trigger] call_ensures(f, (&y,), Err::<Vec<u8>, Error>(e))
}

/// The encoding of a record.
pub fn encode<T: View, F: Fn(&T) -> Result<Vec<u8>, Error>>(f: &F, x: &T) -> (r: Result<
    Vec<u8>,
    Error,
>)
    requires
        faithful::<T, F>(*f),
    ensures
        match r {
            Ok(v) => v@ == encoder::<T, F>(*f)(x@),
            Err(e) => fails_on::<T, F>(*f, x@, e),
        },
{
    match f(x) {
        Ok(v) => {
            proof {
                assert(encodes_to::<T, F>(*f, x@, v@));
                assert(encodes_to::<T, F>(*f, x@, encoding::<T, F>(*f, x@)));
            }
            Ok(v)
        },
        Err(e) => Err(e),
    }
}

/// The encodings of responses one after the other.
pub open spec fn responses_bytes(
    v: Seq<ResponseItemView>,
    enc: spec_fn(ResponseItemView) -> Seq<u8>,
) -> Seq<u8>
    decreases v.len(),
{
    if v.len() == 0 {
        Seq::empty()
    } else {
        responses_bytes(v.drop_last(), enc) + enc(v.last())
    }
}

/// Tree root of a byte string.
pub open spec fn root_of(b: Seq<u8>) -> Seq<u8> {
    bao_tree_of(b).0
}

/// Encoding one of these responses failed with this error.
pub open spec fn fails_among<F: Fn(&ResponseItem) -> Result<Vec<u8>, Error>>(
    f: F,
    v: Seq<ResponseItemView>,
    e: Error,
) -> bool {
    exists|i: int| 0 <= i < v.len() && #[trigger] fails_on::<ResponseItem, F>(f, v[i], e)
}

/// The encodings of responses one after the other.
pub fn encode_responses<F: Fn(&ResponseItem) -> Result<Vec<u8>, Error>>(
    responses: &Vec<ResponseItem>,
    f: &F,
) -> (r: Result<Vec<u8>, Error>)
    requires
        faithful::<ResponseItem, F>(*f),
    ensures
        match r {
            Ok(v) => v@ == responses_bytes(
                response_views(responses@),
                encoder::<ResponseItem, F>(*f),
            ),
            Err(e) => fails_among(*f, response_views(responses@), e),
        },
{
    let ghost enc = encoder::<ResponseItem, F>(*f);
    let ghost all = response_views(responses@);
    let mut out: Vec<u8> = Vec::new();
    let mut i: usize = 0;
    proof {
        assert(all.take(0) =~= Seq::<ResponseItemView>::empty());
    }
    while i < responses.len()
        invariant
            faithful::<ResponseItem, F>(*f),
            i <= responses@.len(),
            enc == encoder::<ResponseItem, F>(*f),
            all == response_views(responses@),
            out@ == responses_bytes(all.take(i as int), enc),
        decreases responses.len() - i,
    {
        match encode(f, &responses[i]) {
            Ok(v) => {
                proof {
                    assert(all.take(i + 1).drop_last() =~= all.take(i as int));
                    assert(all.take(i + 1).last() == responses@[i as int]@);
                }
                out.extend_from_slice(v.as_slice());
                proof {
                    assert(out@ =~= responses_bytes(all.take(i as int), enc) + v@);
                }
            },
            Err(e) => {
                assert(fails_on::<ResponseItem, F>(*f, all[i as int], e));
                return Err(e);
            },
        }
        i = i + 1;
    }
    proof {
        assert(all.take(all.len() as int) =~= all);
    }
    Ok(out)
}

/// Tree root of the encoding of a conversation.
pub fn hash_item<F: Fn(&ConversationItem) -> Result<Vec<u8>, Error>>(
    item: &ConversationItem,
    f: &F,
) -> (r: Result<Digest, Error>)
    requires
        faithful::<ConversationItem, F>(*f),
    ensures
        match r {
            Ok(d) => d.root@ == root_of(encoder::<ConversationItem, F>(*f)(item@)),
            Err(e) => fails_on::<ConversationItem, F>(*f, item@, e),
        },
{
    match encode(f, item) {
        Ok(v) => Ok(hash_bytes(v.as_slice())),
        Err(e) => Err(e),
    }
}

/// Tree root of the encodings of responses.
pub fn hash_responses<F: Fn(&ResponseItem) -> Result<Vec<u8>, Error>>(
    responses: &Vec<ResponseItem>,
    f: &F,
) -> (r: Result<Digest, Error>)
    requires
        faithful::<ResponseItem, F>(*f),
    ensures
        match r {
            Ok(d) => d.root@ == root_of(
                responses_bytes(
                    response_views(responses@),
                    encoder::<ResponseItem, F>(*f),
                ),
            ),
            Err(e) => fails_among(*f, response_views(responses@), e),
        },
{
    match encode_responses(responses, f) {
        Ok(v) => Ok(hash_bytes(v.as_slice())),
        Err(e) => Err(e),
    }
}

/// Tree root of the encoding of a response.
pub fn hash_response<F: Fn(&ResponseItem) -> Result<Vec<u8>, Error>>(
    item: &ResponseItem,
    f: &F,
) -> (r: Result<Digest, Error>)
    requires
        faithful::<ResponseItem, F>(*f),
    ensures
        match r {
            Ok(d) => d.root@ == root_of(encoder::<ResponseItem, F>(*f)(item@)),
            Err(e) => fails_on::<ResponseItem, F>(*f, item@, e),
        },
{
    match encode(f, item) {
        Ok(v) => Ok(hash_bytes(v.as_slice())),
        Err(e) => Err(e),
    }
}

/// The encodings of responses follow each other in the order of the responses.
pub proof fn law_responses_bytes(
    a: Seq<ResponseItemView>,
    b: Seq<ResponseItemView>,
    x: ResponseItemView,
    enc: spec_fn(ResponseItemView) -> Seq<u8>,
)
    ensures
        responses_bytes(a + b, enc) == responses_bytes(a, enc) + responses_bytes(b, enc),
        responses_bytes(seq![x], enc) == enc(x),
        responses_bytes(Seq::empty(), enc).len() == 0,
    decreases b.len(),
{
    reveal_with_fuel(responses_bytes, 2);
    assert(seq![x].drop_last() =~= Seq::<ResponseItemView>::empty());
    assert(responses_bytes(seq![x], enc) =~= enc(x));
    if b.len() == 0 {
        assert(a + b =~= a);
        assert(responses_bytes(a, enc) + responses_bytes(b, enc) =~= responses_bytes(a, enc));
    } else {
        law_responses_bytes(a, b.drop_last(), x, enc);
        assert((a + b).drop_last() =~= a + b.drop_last());
        assert(responses_bytes(a + b, enc) =~= responses_bytes(a, enc) + responses_bytes(b, enc));
    }
}

} // verus!
