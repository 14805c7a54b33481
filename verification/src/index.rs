//! The word index of a text: which words occur in which spans, and the
//! packed posting lists.
use vstd::hash_map::StringHashMap;
use vstd::prelude::*;
use vstd::utf8::{encode_scalar, encode_utf8};

use crate::archive::{u32_fit_usize, unfit_text, TextSpan};
use crate::bytes::{
    le32, le64, lemma_le32, lemma_le64, lemma_le_len, lemma_range_of_range, put_u32, put_u64, put_zeros, u32_at, u64_at, zeros,
};
use crate::order::{ascending, before, sort_order, sorted_positions};
use crate::text::{chars_of, string_range};
use crate::trie::{
    assemble_tries, fst_entries, fst_finish, fst_image, fst_insert, fst_memory, tries_bytes,
    tries_valid, Hit,
};
use crate::utf::{
    byte_len, char_bytes, lemma_encode_concat, lemma_encode_push, str_range, text_range,
};
use crate::Error;

verus! {

/// Unicode letters and numbers, as `char::is_alphanumeric` knows them.
pub uninterp spec fn alphanumeric(c: char) -> bool;

/// ASCII letters and digits.
pub open spec fn ascii_alphanumeric(c: char) -> bool {
    ('0' <= c <= '9') || ('A' <= c <= 'Z') || ('a' <= c <= 'z')
}

/// `char::is_alphanumeric` is a property of the character. Of the ASCII
/// characters it holds of the letters and digits.
pub assume_specification[ char::is_alphanumeric ](c: char) -> (r: bool)
    ensures
        r == alphanumeric(c),
        c as u32 <= 127 ==> r == ascii_alphanumeric(c),
;

/// Unicode lower case, as `str::to_lowercase` computes it.
pub uninterp spec fn lowercase(s: Seq<char>) -> Seq<char>;

/// `str::to_lowercase` is a function of the text.
pub assume_specification[ str::to_lowercase ](s: &str) -> (r: String)
    ensures
        r@ == lowercase(s@),
;

/// Length of the run of letters and numbers that opens `s`.
pub open spec fn word_run(s: Seq<char>) -> nat
    decreases s.len(),
{
    if s.len() > 0 && alphanumeric(s[0]) {
        1 + word_run(s.drop_first())
    } else {
        0
    }
}

proof fn lemma_word_run(s: Seq<char>)
    ensures
        word_run(s) <= s.len(),
        s.len() > 0 && alphanumeric(s[0]) ==> word_run(s) > 0,
    decreases s.len(),
{
    if s.len() > 0 && alphanumeric(s[0]) {
        lemma_word_run(s.drop_first());
    }
}

/// The words of `s`: its longest runs of letters and numbers, each with the
/// byte position where it starts. `at` is the byte position of `s`.
pub open spec fn words_from(s: Seq<char>, at: nat) -> Seq<(nat, Seq<char>)>
    decreases s.len(),
    via words_from_decreases
{
    if s.len() == 0 {
        Seq::empty()
    } else if alphanumeric(s[0]) {
        let n = word_run(s) as int;
        seq![(at, s.take(n))] + words_from(s.skip(n), at + byte_len(s.take(n)))
    } else {
        words_from(s.drop_first(), at + byte_len(s.take(1)))
    }
}

#[via_fn]
proof fn words_from_decreases(s: Seq<char>, at: nat) {
    lemma_word_run(s);
}

/// The words of a text.
pub open spec fn words(s: Seq<char>) -> Seq<(nat, Seq<char>)> {
    words_from(s, 0)
}

/// A word with its byte position.
pub struct Word {
    pub off: usize,
    pub text: String,
}

/// Positions and texts of words.
pub open spec fn word_views(v: Seq<Word>) -> Seq<(nat, Seq<char>)> {
    Seq::new(v.len(), |i: int| (v[i].off as nat, v[i].text@))
}

/// The words of a text, in order.
pub fn words_of(s: &str) -> (r: Vec<Word>)
    ensures
        word_views(r@) == words(s@),
{
    let v = chars_of(s);
    let bytes = s.as_bytes();
    let size: usize = bytes.len();
    let mut out: Vec<Word> = Vec::new();
    let mut i: usize = 0;
    let mut at: usize = 0;
    proof {
        assert(v@.skip(0) =~= v@);
        assert(v@.take(0) =~= Seq::<char>::empty());
        assert(word_views(out@) + words(s@) =~= words(s@));
    }
    while i < v.len()
        invariant
            i <= v@.len(),
            v@.len() == v.len(),
            v@ == s@,
            size == byte_len(s@),
            at == byte_len(v@.take(i as int)),
            at <= size,
            words(s@) == word_views(out@) + words_from(v@.skip(i as int), at as nat),
        decreases v.len() - i,
    {
        let ghost rest = v@.skip(i as int);
        proof {
            assert(rest[0] == v@[i as int]);
        }
        if v[i].is_alphanumeric() {
            let start: usize = i;
            let start_at: usize = at;
            proof {
                assert(v@.skip(start as int).skip(0) =~= v@.skip(start as int));
            }
            while i < v.len() && v[i].is_alphanumeric()
                invariant
                    start <= i <= v@.len(),
                    v@.len() == v.len(),
                    v@ == s@,
                    size == byte_len(s@),
                    rest == v@.skip(start as int),
                    at == byte_len(v@.take(i as int)),
                    at <= size,
                    word_run(rest) == i - start + word_run(v@.skip(i as int)),
                decreases v.len() - i,
            {
                proof {
                    lemma_grow(v@, i as int);
                    assert(v@.skip(i as int).drop_first() =~= v@.skip(i + 1));
                    lemma_prefix_len(v@, i + 1);
                }
                at = at + char_bytes(v[i]);
                i = i + 1;
            }
            let ghost was = out@;
            proof {
                lemma_word_run(v@.skip(i as int));
                assert(v@.skip(i as int).len() > 0 ==> v@.skip(i as int)[0] == v@[i as int]);
                assert(word_run(rest) == i - start);
                assert(rest.take(i - start) =~= v@.subrange(start as int, i as int));
                assert(rest.skip(i - start) =~= v@.skip(i as int));
                lemma_split_len(v@, start as int, i as int);
            }
            let text = string_range(&v, start, i);
            out.push(Word { off: start_at, text });
            proof {
                let w = (start_at as nat, rest.take(i - start));
                assert(word_views(out@) =~= word_views(was).push(w));
                assert(words_from(rest, start_at as nat) == seq![w] + words_from(
                    v@.skip(i as int),
                    at as nat,
                ));
                assert(word_views(was) + (seq![w] + words_from(v@.skip(i as int), at as nat))
                    =~= word_views(out@) + words_from(v@.skip(i as int), at as nat));
            }
        } else {
            proof {
                lemma_grow(v@, i as int);
                lemma_prefix_len(v@, i + 1);
                assert(rest.drop_first() =~= v@.skip(i + 1));
                assert(rest.take(1) =~= v@.subrange(i as int, i + 1));
                lemma_split_len(v@, i as int, i + 1);
            }
            at = at + char_bytes(v[i]);
            i = i + 1;
        }
    }
    proof {
        assert(words_from(v@.skip(i as int), at as nat) =~= Seq::<(nat, Seq<char>)>::empty());
        assert(word_views(out@) + Seq::<(nat, Seq<char>)>::empty() =~= word_views(out@));
    }
    out
}

proof fn lemma_grow(v: Seq<char>, i: int)
    requires
        0 <= i < v.len(),
    ensures
        byte_len(v.take(i + 1)) == byte_len(v.take(i)) + encode_scalar(v[i] as u32).len(),
{
    assert(v.take(i + 1) =~= v.take(i).push(v[i]));
    lemma_encode_push(v.take(i), v[i]);
}

proof fn lemma_prefix_len(v: Seq<char>, i: int)
    requires
        0 <= i <= v.len(),
    ensures
        byte_len(v.take(i)) <= byte_len(v),
{
    assert(v =~= v.take(i) + v.skip(i));
    lemma_encode_concat(v.take(i), v.skip(i));
}

proof fn lemma_split_len(v: Seq<char>, i: int, j: int)
    requires
        0 <= i <= j <= v.len(),
    ensures
        byte_len(v.take(j)) == byte_len(v.take(i)) + byte_len(v.subrange(i, j)),
{
    assert(v.take(j) =~= v.take(i) + v.subrange(i, j));
    lemma_encode_concat(v.take(i), v.subrange(i, j));
}

/// A key with one occurrence.
pub type Posting = (Seq<char>, Hit);

/// The occurrences of `key`, in order.
pub open spec fn hits_for(all: Seq<Posting>, key: Seq<char>) -> Seq<Hit>
    decreases all.len(),
{
    if all.len() == 0 {
        Seq::empty()
    } else if all.last().0 == key {
        hits_for(all.drop_last(), key).push(all.last().1)
    } else {
        hits_for(all.drop_last(), key)
    }
}

/// The distinct keys of `all` in ascending order, each with its occurrences.
pub open spec fn index_of(
    all: Seq<Posting>,
    keys: Seq<Seq<char>>,
    lists: Seq<Seq<Hit>>,
) -> bool {
    &&& keys.len() == lists.len()
    &&& ascending(keys)
    &&& forall|i: int|
        0 <= i < keys.len() ==> #[trigger] lists[i] == hits_for(all, keys[i]) && lists[i].len() > 0
    &&& forall|j: int| 0 <= j < all.len() ==> keys.contains(#[trigger] all[j].0)
}

/// Lists of hits as sequences.
pub open spec fn list_views(lists: Seq<Vec<Hit>>) -> Seq<Seq<Hit>> {
    Seq::new(lists.len(), |i: int| lists[i]@)
}

/// Keys in order of first sight, with their occurrences.
pub struct IndexBuilder {
    slots: StringHashMap<usize>,
    keys: Vec<String>,
    lists: Vec<Vec<Hit>>,
}

impl IndexBuilder {
    /// This builder holds exactly the occurrences `all`.
    pub closed spec fn holds(&self, all: Seq<Posting>) -> bool {
        &&& self.keys@.len() == self.lists@.len()
        &&& forall|i: int|
            0 <= i < self.keys@.len() ==> #[trigger] self.slots@.contains_key(self.keys@[i]@)
                && self.slots@[self.keys@[i]@] == i
        &&& forall|k: Seq<char>| #[trigger]
            self.slots@.contains_key(k) ==> self.slots@[k] < self.keys@.len()
                && self.keys@[self.slots@[k] as int]@ == k
        &&& forall|i: int|
            0 <= i < self.keys@.len() ==> (#[trigger] self.lists@[i])@ == hits_for(
                all,
                self.keys@[i]@,
            ) && self.lists@[i]@.len() > 0
        &&& forall|j: int| 0 <= j < all.len() ==> self.slots@.contains_key(#[trigger] all[j].0)
        &&& forall|i: int| 0 <= i < self.keys@.len() ==> (#[trigger] self.keys@[i])@.len() > 0
    }

    /// A builder without occurrences.
    pub fn new() -> (r: IndexBuilder)
        ensures
            r.holds(Seq::empty()),
    {
        IndexBuilder { slots: StringHashMap::new(), keys: Vec::new(), lists: Vec::new() }
    }

    /// Adds one occurrence.
    fn insert(&mut self, key: String, hit: Hit, Ghost(all): Ghost<Seq<Posting>>)
        requires
            old(self).holds(all),
            key@.len() > 0,
        ensures
            final(self).holds(all.push((key@, hit))),
    {
        let ghost next = all.push((key@, hit));
        proof {
            assert(next.drop_last() =~= all);
            assert forall|k: Seq<char>| hits_for(next, k) == (if k == key@ {
                hits_for(all, k).push(hit)
            } else {
                hits_for(all, k)
            }) by {}
            assert forall|j: int| 0 <= j < all.len() implies next[j] == #[trigger] all[j] by {}
        }
        let found = match self.slots.get(key.as_str()) {
            Some(slot) => Some(*slot),
            None => None,
        };
        match found {
            Some(slot) => {
                self.lists[slot].push(hit);
                proof {
                    assert forall|j: int| 0 <= j < next.len() implies self.slots@.contains_key(
                        #[trigger] next[j].0,
                    ) by {
                        if j < all.len() {
                            assert(next[j] == all[j]);
                        }
                    }
                }
            },
            None => {
                let slot: usize = self.keys.len();
                let mut list: Vec<Hit> = Vec::new();
                list.push(hit);
                proof {
                    lemma_no_hits(all, key@);
                }
                self.slots.insert(key.clone(), slot);
                self.keys.push(key);
                self.lists.push(list);
                proof {
                    assert(self.lists@[slot as int]@ =~= hits_for(next, key@));
                    assert forall|j: int| 0 <= j < next.len() implies self.slots@.contains_key(
                        #[trigger] next[j].0,
                    ) by {
                        if j < all.len() {
                            assert(next[j] == all[j]);
                        }
                    }
                }
            },
        }
    }
}

proof fn lemma_no_hits(all: Seq<Posting>, key: Seq<char>)
    requires
        forall|j: int| 0 <= j < all.len() ==> #[trigger] all[j].0 != key,
    ensures
        hits_for(all, key) == Seq::<Hit>::empty(),
    decreases all.len(),
{
    if all.len() > 0 {
        assert(all.last() == all[all.len() - 1]);
        assert forall|j: int| 0 <= j < all.drop_last().len() implies #[trigger] all.drop_last()[j].0
            != key by {
            assert(all.drop_last()[j] == all[j]);
        }
        lemma_no_hits(all.drop_last(), key);
    }
}

/// Keys numbered from zero, as the word map stores them.
pub open spec fn numbered(keys: Seq<Seq<char>>) -> Seq<(Seq<u8>, u64)> {
    Seq::new(keys.len(), |i: int| (encode_utf8(keys[i]), i as u64))
}

/// Occurrences in the first `k` lists.
pub open spec fn hits_before(lists: Seq<Seq<Hit>>, k: int) -> nat
    decreases k,
{
    if k <= 0 {
        0
    } else {
        hits_before(lists, k - 1) + lists[k - 1].len()
    }
}

/// Where the occurrences of list `k` start.
pub open spec fn list_start(lists: Seq<Seq<Hit>>, k: int) -> int {
    (8 + 16 * lists.len() + 8 * hits_before(lists, k)) as int
}

/// The first `k` directory entries: start, length and four zero bytes.
pub open spec fn directory(lists: Seq<Seq<Hit>>, k: int) -> Seq<u8>
    decreases k,
{
    if k <= 0 {
        Seq::empty()
    } else {
        directory(lists, k - 1) + (le64(list_start(lists, k - 1) as u64) + le32(
            lists[k - 1].len() as u32,
        ) + zeros(4))
    }
}

/// The bytes of a list of occurrences.
pub open spec fn hit_bytes(list: Seq<Hit>) -> Seq<u8>
    decreases list.len(),
{
    if list.len() == 0 {
        Seq::empty()
    } else {
        hit_bytes(list.drop_last()) + (le32(list.last().span_index) + le32(list.last().byte_off))
    }
}

/// The bytes of the first `k` lists.
pub open spec fn lists_bytes(lists: Seq<Seq<Hit>>, k: int) -> Seq<u8>
    decreases k,
{
    if k <= 0 {
        Seq::empty()
    } else {
        lists_bytes(lists, k - 1) + hit_bytes(lists[k - 1])
    }
}

/// Packed posting lists: count, four zero bytes, directory, occurrences.
pub open spec fn postings_bytes(lists: Seq<Seq<Hit>>) -> Seq<u8> {
    le32(lists.len() as u32) + zeros(4) + directory(lists, lists.len() as int) + lists_bytes(
        lists,
        lists.len() as int,
    )
}

/// Why the first `k` lists cannot be packed.
pub open spec fn lists_fault(lists: Seq<Seq<Hit>>, k: int) -> Option<Seq<char>>
    decreases k,
{
    if k <= 0 {
        None
    } else if lists_fault(lists, k - 1) is Some {
        lists_fault(lists, k - 1)
    } else if lists[k - 1].len() > u32::MAX {
        Some(unfit_text(lists[k - 1].len(), "posting list length"@))
    } else if list_start(lists, k) > u64::MAX {
        Some("posting hits overflow"@)
    } else {
        None
    }
}

/// Why these lists cannot be packed.
pub open spec fn postings_fault(lists: Seq<Seq<Hit>>) -> Option<Seq<char>> {
    if lists.len() > u32::MAX {
        Some(unfit_text(lists.len(), "posting list count"@))
    } else if 8 + 16 * lists.len() > usize::MAX {
        Some("posting directory overflow"@)
    } else {
        lists_fault(lists, lists.len() as int)
    }
}

/// Once a list cannot be packed, no longer run of lists can be.
proof fn lemma_fault_stays(lists: Seq<Seq<Hit>>, j: int, k: int)
    requires
        0 <= j <= k,
        lists_fault(lists, j) is Some,
    ensures
        lists_fault(lists, k) == lists_fault(lists, j),
    decreases k - j,
{
    if j < k {
        lemma_fault_stays(lists, j, k - 1);
    }
}

/// Appends the bytes of one list.
fn put_hits(out: &mut Vec<u8>, list: &Vec<Hit>)
    ensures
        final(out)@ == old(out)@ + hit_bytes(list@),
{
    let mut i: usize = 0;
    proof {
        assert(list@.take(0) =~= Seq::<Hit>::empty());
        assert(out@ =~= old(out)@ + hit_bytes(list@.take(0)));
    }
    while i < list.len()
        invariant
            i <= list@.len(),
            out@ == old(out)@ + hit_bytes(list@.take(i as int)),
        decreases list.len() - i,
    {
        put_u32(out, list[i].span_index);
        put_u32(out, list[i].byte_off);
        proof {
            let next = list@.take(i + 1);
            assert(next.drop_last() =~= list@.take(i as int));
            assert(out@ =~= old(out)@ + hit_bytes(next));
        }
        i = i + 1;
    }
    proof {
        assert(list@.take(list@.len() as int) =~= list@);
    }
}

/// Packs posting lists.
pub fn pack_postings(lists: &Vec<Vec<Hit>>) -> (r: Result<Vec<u8>, Error>)
    ensures
        match r {
            Ok(bytes) => postings_fault(list_views(lists@)) is None && bytes@ == postings_bytes(
                list_views(lists@),
            ),
            Err(Error::Ingest(m)) => postings_fault(list_views(lists@)) == Some(m@),
            Err(_) => false,
        },
{
    let ghost all = list_views(lists@);
    let count = u32_fit_usize(lists.len(), "posting list count")?;
    let dir_bytes = match lists.len().checked_mul(16) {
        Some(n) => n,
        None => {
            return Err(Error::Ingest("posting directory overflow".to_owned()));
        },
    };
    let hits_start = match dir_bytes.checked_add(8) {
        Some(n) => n,
        None => {
            return Err(Error::Ingest("posting directory overflow".to_owned()));
        },
    };
    let mut out: Vec<u8> = Vec::new();
    put_u32(&mut out, count);
    put_zeros(&mut out, 4);
    let ghost head = out@;
    let mut hits_off: u64 = hits_start as u64;
    let mut i: usize = 0;
    proof {
        assert(head =~= le32(all.len() as u32) + zeros(4));
        assert(out@ =~= head + directory(all, 0));
    }
    while i < lists.len()
        invariant
            i <= lists@.len(),
            lists@.len() == lists.len(),
            all == list_views(lists@),
            lists@.len() <= u32::MAX,
            8 + 16 * lists@.len() <= usize::MAX,
            hits_off == list_start(all, i as int),
            lists_fault(all, i as int) is None,
            out@ == head + directory(all, i as int),
        decreases lists.len() - i,
    {
        proof {
            assert(all[i as int] == lists@[i as int]@);
        }
        let hit_count = match u32_fit_usize(lists[i].len(), "posting list length") {
            Ok(n) => n,
            Err(e) => {
                proof {
                    assert(lists_fault(all, i + 1) is Some);
                    lemma_fault_stays(all, i + 1, all.len() as int);
                }
                return Err(e);
            },
        };
        let ghost was = out@;
        put_u64(&mut out, hits_off);
        put_u32(&mut out, hit_count);
        put_zeros(&mut out, 4);
        proof {
            assert(out@ =~= head + directory(all, i + 1));
        }
        hits_off = match hits_off.checked_add(hit_count as u64 * 8) {
            Some(n) => n,
            None => {
                proof {
                    assert(lists_fault(all, i + 1) is Some);
                    lemma_fault_stays(all, i + 1, all.len() as int);
                }
                return Err(Error::Ingest("posting hits overflow".to_owned()));
            },
        };
        i = i + 1;
    }
    let ghost front = out@;
    let mut j: usize = 0;
    proof {
        assert(out@ =~= front + lists_bytes(all, 0));
    }
    while j < lists.len()
        invariant
            j <= lists@.len(),
            lists@.len() == lists.len(),
            all == list_views(lists@),
            out@ == front + lists_bytes(all, j as int),
        decreases lists.len() - j,
    {
        put_hits(&mut out, &lists[j]);
        proof {
            assert(all[j as int] == lists@[j as int]@);
            assert(out@ =~= front + lists_bytes(all, j + 1));
        }
        j = j + 1;
    }
    Ok(out)
}

proof fn lemma_encode_nonempty(s: Seq<char>)
    requires
        s.len() > 0,
    ensures
        encode_utf8(s).len() > 0,
{
    assert(encode_scalar(s[0] as u32).len() > 0);
}

/// The word map and the packed posting lists of an index.
pub open spec fn index_parts(
    keys: Seq<Seq<char>>,
    lists: Seq<Seq<Hit>>,
    parts: (Seq<u8>, Seq<u8>),
) -> bool {
    parts == (fst_image(numbered(keys)), postings_bytes(lists))
}

/// Sorts the keys and packs word map and posting lists.
fn finish_index(b: IndexBuilder, Ghost(all): Ghost<Seq<Posting>>) -> (r: Result<
    (Vec<u8>, Vec<u8>),
    Error,
>)
    requires
        b.holds(all),
    ensures
        exists|keys: Seq<Seq<char>>, lists: Seq<Seq<Hit>>| #[trigger]
            index_of(all, keys, lists) && match r {
                Ok(p) => postings_fault(lists) is None && index_parts(keys, lists, (p.0@, p.1@)),
                Err(Error::Ingest(m)) => postings_fault(lists) == Some(m@),
                Err(_) => false,
            },
{
    let p = sort_order(&b.keys);
    let mut fst = fst_memory();
    let mut lists: Vec<Vec<Hit>> = Vec::new();
    let ghost keys = Seq::new(p@.len(), |i: int| b.keys@[p@[i] as int]@);
    let mut id: usize = 0;
    proof {
        assert(fst_entries(fst) =~= numbered(keys).take(0));
    }
    while id < p.len()
        invariant
            id <= p@.len(),
            p@.len() == p.len(),
            b.holds(all),
            sorted_positions(b.keys@, 0, b.keys@.len() as int, p@),
            keys == Seq::new(p@.len(), |i: int| b.keys@[p@[i] as int]@),
            fst_entries(fst) == numbered(keys).take(id as int),
            lists@.len() == id,
            forall|i: int|
                0 <= i < id ==> (#[trigger] lists@[i])@ == hits_for(all, keys[i])
                    && lists@[i]@.len() > 0,
        decreases p.len() - id,
    {
        proof {
            assert(p@.contains(p@[id as int]));
            if id > 0 {
                assert(p@.contains(p@[id - 1]));
                let x = p@[id - 1] as int;
                let y = p@[id as int] as int;
                assert(crate::order::sorts_before(b.keys@, x, y));
                assert(b.slots@.contains_key(b.keys@[x]@));
                assert(b.slots@.contains_key(b.keys@[y]@));
                assert(fst_entries(fst).last() == numbered(keys)[id - 1]);
            }
            lemma_encode_nonempty(b.keys@[p@[id as int] as int]@);
        }
        let slot: usize = p[id];
        let key = b.keys[slot].as_str();
        match fst_insert(&mut fst, key.as_bytes(), id as u64) {
            Ok(_) => {},
            Err(m) => {
                return Err(Error::Fst(m));
            },
        }
        proof {
            assert(numbered(keys).take(id + 1) =~= numbered(keys).take(id as int).push(
                numbered(keys)[id as int],
            ));
        }
        lists.push(vstd::slice::slice_to_vec(b.lists[slot].as_slice()));
        id = id + 1;
    }
    proof {
        assert(numbered(keys).take(keys.len() as int) =~= numbered(keys));
        assert forall|i: int, j: int| 0 <= i < j < keys.len() implies before(
            #[trigger] keys[i],
            #[trigger] keys[j],
        ) by {
            let x = p@[i] as int;
            let y = p@[j] as int;
            assert(p@.contains(p@[i]) && p@.contains(p@[j]));
            assert(crate::order::sorts_before(b.keys@, x, y));
            assert(b.slots@.contains_key(b.keys@[x]@));
            assert(b.slots@.contains_key(b.keys@[y]@));
        }
        assert forall|j: int| 0 <= j < all.len() implies keys.contains(#[trigger] all[j].0) by {
            let slot = b.slots@[all[j].0];
            assert(b.slots@.contains_key(all[j].0));
            assert(p@.contains(slot));
            let q = choose|q: int| 0 <= q < p@.len() && p@[q] == slot;
            assert(keys[q] == all[j].0);
        }
        assert(index_of(all, keys, list_views(lists@)));
    }
    let words = match fst_finish(fst) {
        Ok(bytes) => bytes,
        Err(m) => {
            return Err(Error::Fst(m));
        },
    };
    let postings = pack_postings(&lists)?;
    proof {
        assert(index_parts(keys, list_views(lists@), (words@, postings@)));
    }
    Ok((words, postings))
}

/// The occurrences of the first `k` words of a span.
pub open spec fn span_postings(
    ws: Seq<(nat, Seq<char>)>,
    span_index: u32,
    fold: bool,
) -> Seq<Posting>
    decreases ws.len(),
{
    if ws.len() == 0 {
        Seq::empty()
    } else {
        let head = span_postings(ws.drop_last(), span_index, fold);
        let key = if fold {
            lowercase(ws.last().1)
        } else {
            ws.last().1
        };
        if key.len() > 0 {
            head.push((key, Hit { span_index, byte_off: ws.last().0 as u32 }))
        } else {
            head
        }
    }
}

/// The words of a span of a text.
pub open spec fn span_words(text: Seq<char>, span: TextSpan) -> Seq<(nat, Seq<char>)> {
    match text_range(text, span.text_off as int, span.len as int) {
        Some(s) => words(s),
        None => Seq::empty(),
    }
}

/// Every occurrence of every word, with its lower case when `fold`.
pub open spec fn all_postings(text: Seq<char>, spans: Seq<TextSpan>, fold: bool) -> Seq<Posting>
    decreases spans.len(),
{
    if spans.len() == 0 {
        Seq::empty()
    } else {
        all_postings(text, spans.drop_last(), fold) + span_postings(
            span_words(text, spans.last()),
            (spans.len() - 1) as u32,
            fold,
        )
    }
}

/// Why the words of a span have no 32-bit positions.
pub open spec fn words_fault(ws: Seq<(nat, Seq<char>)>) -> Option<Seq<char>>
    decreases ws.len(),
{
    if ws.len() == 0 {
        None
    } else if words_fault(ws.drop_last()) is Some {
        words_fault(ws.drop_last())
    } else if ws.last().0 > u32::MAX {
        Some(unfit_text(ws.last().0, "token byte offset in a text span"@))
    } else {
        None
    }
}

/// Why a span cannot be indexed.
pub open spec fn span_fault(text: Seq<char>, span: TextSpan, index: nat) -> Option<Seq<char>> {
    if index > u32::MAX {
        Some(unfit_text(index, "text span index"@))
    } else if text_range(text, span.text_off as int, span.len as int) is None {
        Some("span is outside text"@)
    } else {
        words_fault(span_words(text, span))
    }
}

/// Why these spans cannot be indexed.
pub open spec fn spans_fault(text: Seq<char>, spans: Seq<TextSpan>) -> Option<Seq<char>>
    decreases spans.len(),
{
    if spans.len() == 0 {
        None
    } else if spans_fault(text, spans.drop_last()) is Some {
        spans_fault(text, spans.drop_last())
    } else {
        span_fault(text, spans.last(), (spans.len() - 1) as nat)
    }
}

proof fn lemma_words_fault_stays(ws: Seq<(nat, Seq<char>)>, j: int)
    requires
        0 <= j <= ws.len(),
        words_fault(ws.take(j)) is Some,
    ensures
        words_fault(ws) == words_fault(ws.take(j)),
    decreases ws.len() - j,
{
    if j < ws.len() {
        assert(ws.take(j + 1).drop_last() =~= ws.take(j));
        lemma_words_fault_stays(ws, j + 1);
    } else {
        assert(ws.take(j) =~= ws);
    }
}

proof fn lemma_spans_fault_stays(text: Seq<char>, spans: Seq<TextSpan>, j: int)
    requires
        0 <= j <= spans.len(),
        spans_fault(text, spans.take(j)) is Some,
    ensures
        spans_fault(text, spans) == spans_fault(text, spans.take(j)),
    decreases spans.len() - j,
{
    if j < spans.len() {
        assert(spans.take(j + 1).drop_last() =~= spans.take(j));
        lemma_spans_fault_stays(text, spans, j + 1);
    } else {
        assert(spans.take(j) =~= spans);
    }
}

/// The text of a span.
pub fn span_str<'a>(text: &'a str, span: &TextSpan) -> (r: Result<&'a str, Error>)
    ensures
        match r {
            Ok(s) => text_range(text@, span.text_off as int, span.len as int) == Some(s@)
                && encode_utf8(s@) == encode_utf8(text@).subrange(
                span.text_off as int,
                span.text_off + span.len,
            ),
            Err(e) => text_range(text@, span.text_off as int, span.len as int) is None && e
                == Error::InvalidArchive,
        },
{
    let bytes = text.as_bytes();
    let size: usize = bytes.len();
    if span.text_off > size as u64 || span.len > size as u64 {
        return Err(Error::InvalidArchive);
    }
    match str_range(text, span.text_off as usize, span.len as usize) {
        Some(s) => Ok(s),
        None => Err(Error::InvalidArchive),
    }
}

/// Indexes the words of one span.
fn index_span(
    cs: &mut IndexBuilder,
    ci: &mut IndexBuilder,
    span_index: u32,
    span_text: &str,
    Ghost(cs_all): Ghost<Seq<Posting>>,
    Ghost(ci_all): Ghost<Seq<Posting>>,
) -> (r: Result<(), Error>)
    requires
        old(cs).holds(cs_all),
        old(ci).holds(ci_all),
    ensures
        match r {
            Ok(_) => words_fault(words(span_text@)) is None && final(cs).holds(
                cs_all + span_postings(words(span_text@), span_index, false),
            ) && final(ci).holds(ci_all + span_postings(words(span_text@), span_index, true)),
            Err(Error::Ingest(m)) => words_fault(words(span_text@)) == Some(m@),
            Err(_) => false,
        },
{
    let found = words_of(span_text);
    let ghost ws = words(span_text@);
    let mut i: usize = 0;
    proof {
        assert(ws.take(0) =~= Seq::<(nat, Seq<char>)>::empty());
        assert(cs_all + span_postings(ws.take(0), span_index, false) =~= cs_all);
        assert(ci_all + span_postings(ws.take(0), span_index, true) =~= ci_all);
    }
    while i < found.len()
        invariant
            i <= found@.len(),
            ws == words(span_text@),
            word_views(found@) == ws,
            words_fault(ws.take(i as int)) is None,
            cs.holds(cs_all + span_postings(ws.take(i as int), span_index, false)),
            ci.holds(ci_all + span_postings(ws.take(i as int), span_index, true)),
        decreases found.len() - i,
    {
        let ghost next = ws.take(i + 1);
        proof {
            assert(next.drop_last() =~= ws.take(i as int));
            assert(next.last() == (found@[i as int].off as nat, found@[i as int].text@));
        }
        let byte_off = match u32_fit_usize(found[i].off, "token byte offset in a text span") {
            Ok(n) => n,
            Err(e) => {
                proof {
                    lemma_words_fault_stays(ws, i + 1);
                }
                return Err(e);
            },
        };
        let hit = Hit { span_index, byte_off };
        let word = &found[i].text;
        let ghost a = cs_all + span_postings(ws.take(i as int), span_index, false);
        let ghost b = ci_all + span_postings(ws.take(i as int), span_index, true);
        if !word.is_empty() {
            cs.insert(word.clone(), hit, Ghost(a));
            proof {
                assert(a.push((word@, hit)) =~= cs_all + span_postings(next, span_index, false));
            }
        }
        let folded = word.as_str().to_lowercase();
        if !folded.is_empty() {
            ci.insert(folded, hit, Ghost(b));
            proof {
                assert(b.push((lowercase(word@), hit)) =~= ci_all + span_postings(
                    next,
                    span_index,
                    true,
                ));
            }
        }
        i = i + 1;
    }
    proof {
        assert(ws.take(ws.len() as int) =~= ws);
    }
    Ok(())
}

/// The tries region of a text with these spans.
pub open spec fn tries_of(text: Seq<char>, spans: Seq<TextSpan>, region: Seq<u8>) -> bool {
    exists|ck: Seq<Seq<char>>, cl: Seq<Seq<Hit>>, ik: Seq<Seq<char>>, il: Seq<Seq<Hit>>|
        #![trigger index_of(all_postings(text, spans, false), ck, cl), index_of(all_postings(text, spans, true), ik, il)]
        {
            &&& index_of(all_postings(text, spans, false), ck, cl)
            &&& index_of(all_postings(text, spans, true), ik, il)
            &&& postings_fault(cl) is None
            &&& postings_fault(il) is None
            &&& region == tries_bytes(
                fst_image(numbered(ck)),
                fst_image(numbered(ik)),
                postings_bytes(cl),
                postings_bytes(il),
            )
        }
}

/// Why the occurrences `all` cannot be packed.
pub open spec fn index_fault(all: Seq<Posting>, m: Seq<char>) -> bool {
    exists|keys: Seq<Seq<char>>, lists: Seq<Seq<Hit>>| #[trigger]
        index_of(all, keys, lists) && postings_fault(lists) == Some(m)
}

/// Builds the tries region from the UTF-8 text and its spans.
pub fn pack_tries(text: &str, spans: &[TextSpan]) -> (r: Result<Vec<u8>, Error>)
    ensures
        match r {
            Ok(region) => spans_fault(text@, spans@) is None && tries_of(text@, spans@, region@)
                && tries_valid(region@),
            Err(Error::Ingest(m)) => spans_fault(text@, spans@) == Some(m@) || (spans_fault(
                text@,
                spans@,
            ) is None && (index_fault(all_postings(text@, spans@, false), m@) || index_fault(
                all_postings(text@, spans@, true),
                m@,
            ))),
            Err(_) => false,
        },
{
    let mut cs = IndexBuilder::new();
    let mut ci = IndexBuilder::new();
    let mut i: usize = 0;
    proof {
        assert(spans@.take(0) =~= Seq::<TextSpan>::empty());
    }
    while i < spans.len()
        invariant
            i <= spans@.len(),
            spans@.len() == spans.len(),
            spans_fault(text@, spans@.take(i as int)) is None,
            cs.holds(all_postings(text@, spans@.take(i as int), false)),
            ci.holds(all_postings(text@, spans@.take(i as int), true)),
        decreases spans.len() - i,
    {
        let ghost next = spans@.take(i + 1);
        proof {
            assert(next.drop_last() =~= spans@.take(i as int));
            assert(next.last() == spans@[i as int]);
        }
        let span_index = match u32_fit_usize(i, "text span index") {
            Ok(n) => n,
            Err(e) => {
                proof {
                    lemma_spans_fault_stays(text@, spans@, i + 1);
                }
                return Err(e);
            },
        };
        let span_text = match span_str(text, &spans[i]) {
            Ok(s) => s,
            Err(_) => {
                proof {
                    lemma_spans_fault_stays(text@, spans@, i + 1);
                }
                return Err(Error::Ingest("span is outside text".to_owned()));
            },
        };
        let ghost a = all_postings(text@, spans@.take(i as int), false);
        let ghost b = all_postings(text@, spans@.take(i as int), true);
        match index_span(&mut cs, &mut ci, span_index, span_text, Ghost(a), Ghost(b)) {
            Ok(_) => {},
            Err(e) => {
                proof {
                    lemma_spans_fault_stays(text@, spans@, i + 1);
                }
                return Err(e);
            },
        }
        i = i + 1;
    }
    proof {
        assert(spans@.take(spans@.len() as int) =~= spans@);
    }
    let ghost a = all_postings(text@, spans@, false);
    let ghost b = all_postings(text@, spans@, true);
    let cs_parts = finish_index(cs, Ghost(a))?;
    let ci_parts = finish_index(ci, Ghost(b))?;
    let region = assemble_tries(
        cs_parts.0.as_slice(),
        ci_parts.0.as_slice(),
        cs_parts.1.as_slice(),
        ci_parts.1.as_slice(),
    );
    Ok(region)
}

/// Directory entry `i`.
pub open spec fn entry_bytes(lists: Seq<Seq<Hit>>, i: int) -> Seq<u8> {
    le64(list_start(lists, i) as u64) + le32(lists[i].len() as u32) + zeros(4)
}

proof fn lemma_directory(lists: Seq<Seq<Hit>>, k: int, i: int)
    requires
        0 <= i < k <= lists.len(),
    ensures
        directory(lists, k).len() == 16 * k,
        directory(lists, k).subrange(16 * i, 16 * i + 16) == entry_bytes(lists, i),
    decreases k,
{
    lemma_directory_len(lists, k);
    lemma_directory_len(lists, k - 1);
    let head = directory(lists, k - 1);
    let e = entry_bytes(lists, k - 1);
    if i == k - 1 {
        assert((head + e).subrange(16 * i, 16 * i + 16) =~= e);
    } else {
        lemma_directory(lists, k - 1, i);
        assert((head + e).subrange(16 * i, 16 * i + 16) =~= head.subrange(16 * i, 16 * i + 16));
    }
}

proof fn lemma_directory_len(lists: Seq<Seq<Hit>>, k: int)
    requires
        0 <= k <= lists.len(),
    ensures
        directory(lists, k).len() == 16 * k,
    decreases k,
{
    if k > 0 {
        lemma_directory_len(lists, k - 1);
        lemma_le_len(lists[k - 1].len() as u32, list_start(lists, k - 1) as u64);
    }
}

proof fn lemma_hit_bytes(list: Seq<Hit>, j: int)
    requires
        0 <= j < list.len(),
    ensures
        hit_bytes(list).len() == 8 * list.len(),
        hit_bytes(list).subrange(8 * j, 8 * j + 4) == le32(list[j].span_index),
        hit_bytes(list).subrange(8 * j + 4, 8 * j + 8) == le32(list[j].byte_off),
    decreases list.len(),
{
    lemma_hit_bytes_len(list);
    lemma_hit_bytes_len(list.drop_last());
    lemma_le_len(list.last().span_index, 0);
    lemma_le_len(list.last().byte_off, 0);
    let head = hit_bytes(list.drop_last());
    let e = le32(list.last().span_index) + le32(list.last().byte_off);
    if j == list.len() - 1 {
        assert((head + e).subrange(8 * j, 8 * j + 4) =~= le32(list[j].span_index));
        assert((head + e).subrange(8 * j + 4, 8 * j + 8) =~= le32(list[j].byte_off));
    } else {
        lemma_hit_bytes(list.drop_last(), j);
        assert((head + e).subrange(8 * j, 8 * j + 4) =~= head.subrange(8 * j, 8 * j + 4));
        assert((head + e).subrange(8 * j + 4, 8 * j + 8) =~= head.subrange(8 * j + 4, 8 * j + 8));
    }
}

proof fn lemma_hit_bytes_len(list: Seq<Hit>)
    ensures
        hit_bytes(list).len() == 8 * list.len(),
    decreases list.len(),
{
    if list.len() > 0 {
        lemma_hit_bytes_len(list.drop_last());
        lemma_le_len(list.last().span_index, 0);
        lemma_le_len(list.last().byte_off, 0);
    }
}

proof fn lemma_lists_bytes_len(lists: Seq<Seq<Hit>>, k: int)
    requires
        0 <= k <= lists.len(),
    ensures
        lists_bytes(lists, k).len() == 8 * hits_before(lists, k),
    decreases k,
{
    if k > 0 {
        lemma_lists_bytes_len(lists, k - 1);
        lemma_hit_bytes_len(lists[k - 1]);
    }
}

proof fn lemma_lists_bytes(lists: Seq<Seq<Hit>>, k: int, i: int)
    requires
        0 <= i < k <= lists.len(),
    ensures
        8 * hits_before(lists, i) + 8 * lists[i].len() <= lists_bytes(lists, k).len(),
        lists_bytes(lists, k).subrange(
            (8 * hits_before(lists, i)) as int,
            (8 * hits_before(lists, i) + 8 * lists[i].len()) as int,
        ) == hit_bytes(lists[i]),
    decreases k,
{
    lemma_lists_bytes_len(lists, k);
    lemma_lists_bytes_len(lists, k - 1);
    lemma_hit_bytes_len(lists[k - 1]);
    let head = lists_bytes(lists, k - 1);
    let e = hit_bytes(lists[k - 1]);
    let from = (8 * hits_before(lists, i)) as int;
    let to = (8 * hits_before(lists, i) + 8 * lists[i].len()) as int;
    if i == k - 1 {
        assert((head + e).subrange(from, to) =~= e);
    } else {
        lemma_lists_bytes(lists, k - 1, i);
        assert((head + e).subrange(from, to) =~= head.subrange(from, to));
    }
}

proof fn lemma_start_bounded(lists: Seq<Seq<Hit>>, k: int)
    requires
        0 <= k <= lists.len(),
        lists_fault(lists, k) is None,
        8 + 16 * lists.len() <= u64::MAX,
    ensures
        list_start(lists, k) <= u64::MAX,
        forall|i: int| 0 <= i < k ==> (#[trigger] lists[i]).len() <= u32::MAX,
    decreases k,
{
    if k > 0 {
        lemma_start_bounded(lists, k - 1);
    }
}

/// Packed posting lists read back: the directory gives the start and length
/// of list `i`, and its occurrence `j` stands 8 bytes apart from the next.
pub proof fn law_postings_read_back(lists: Seq<Seq<Hit>>, i: int, j: int)
    requires
        postings_fault(lists) is None,
        0 <= i < lists.len(),
        0 <= j < lists[i].len(),
    ensures
        ({
            let b = postings_bytes(lists);
            let start = u64_at(b, 8 + 16 * i);
            &&& u32_at(b, 0) == lists.len()
            &&& start == list_start(lists, i)
            &&& u32_at(b, 8 + 16 * i + 8) == lists[i].len()
            &&& start + 8 * lists[i].len() <= b.len()
            &&& u32_at(b, start + 8 * j) == lists[i][j].span_index
            &&& u32_at(b, start + 8 * j + 4) == lists[i][j].byte_off
        }),
{
    let n = lists.len() as int;
    let b = postings_bytes(lists);
    let count = le32(lists.len() as u32);
    let dir = directory(lists, n);
    let body = lists_bytes(lists, n);
    lemma_le_len(lists.len() as u32, 0);
    lemma_directory(lists, n, i);
    lemma_lists_bytes(lists, n, i);
    lemma_hit_bytes(lists[i], j);
    lemma_start_bounded(lists, n);
    lemma_hits_monotone(lists, i, n);
    let e = entry_bytes(lists, i);
    let s = list_start(lists, i);
    lemma_le_len(lists[i].len() as u32, s as u64);
    assert(b == count + zeros(4) + dir + body);
    assert(b.subrange(0, 4) =~= count);
    lemma_le32(b, 0, lists.len() as u32);
    assert(b.subrange(8 + 16 * i, 8 + 16 * i + 16) =~= dir.subrange(16 * i, 16 * i + 16));
    lemma_range_of_range(b, 8 + 16 * i, 8 + 16 * i + 16, 0, 8);
    lemma_range_of_range(b, 8 + 16 * i, 8 + 16 * i + 16, 8, 12);
    assert(e.subrange(0, 8) =~= le64(s as u64));
    assert(e.subrange(8, 12) =~= le32(lists[i].len() as u32));
    lemma_le64(b, 8 + 16 * i, s as u64);
    lemma_le32(b, 8 + 16 * i + 8, lists[i].len() as u32);
    let from = 8 + 16 * n;
    let h = hit_bytes(lists[i]);
    let at = (8 * hits_before(lists, i)) as int;
    let m = 8 * lists[i].len() as int;
    assert(b.skip(from) =~= body);
    assert(b.subrange(s, s + m) =~= b.skip(from).subrange(at, at + m));
    lemma_range_of_range(b, s, s + m, 8 * j, 8 * j + 4);
    lemma_range_of_range(b, s, s + m, 8 * j + 4, 8 * j + 8);
    lemma_le32(b, s + 8 * j, lists[i][j].span_index);
    lemma_le32(b, s + 8 * j + 4, lists[i][j].byte_off);
}

proof fn lemma_hits_monotone(lists: Seq<Seq<Hit>>, i: int, k: int)
    requires
        0 <= i < k <= lists.len(),
    ensures
        hits_before(lists, i) + lists[i].len() <= hits_before(lists, k),
    decreases k,
{
    if i < k - 1 {
        lemma_hits_monotone(lists, i, k - 1);
    }
}

/// A run of letters and numbers.
pub open spec fn all_word(s: Seq<char>) -> bool {
    forall|i: int| 0 <= i < s.len() ==> alphanumeric(#[trigger] s[i])
}

proof fn lemma_run_len(w: Seq<char>, rest: Seq<char>)
    requires
        all_word(w),
        rest.len() == 0 || !alphanumeric(rest[0]),
    ensures
        word_run(w + rest) == w.len(),
    decreases w.len(),
{
    let s = w + rest;
    if w.len() == 0 {
        assert(s =~= rest);
    } else {
        assert(s[0] == w[0]);
        assert(forall|i: int| 0 <= i < w.drop_first().len() ==> w.drop_first()[i] == w[i + 1]);
        lemma_run_len(w.drop_first(), rest);
        assert(s.drop_first() =~= w.drop_first() + rest);
    }
}

proof fn lemma_run_inside(s: Seq<char>, k: int)
    requires
        0 <= k < s.len(),
        !alphanumeric(s[k]),
    ensures
        word_run(s) <= k,
    decreases k,
{
    if k > 0 && alphanumeric(s[0]) {
        lemma_run_inside(s.drop_first(), k - 1);
    }
}

/// Every whole run of letters and numbers in a text is one of its words, with
/// the byte that it starts at.
pub proof fn law_every_word_is_found(pre: Seq<char>, w: Seq<char>, post: Seq<char>)
    requires
        w.len() > 0,
        all_word(w),
        pre.len() > 0 ==> !alphanumeric(pre[pre.len() - 1]),
        post.len() > 0 ==> !alphanumeric(post[0]),
    ensures
        words(pre + w + post).contains((byte_len(pre), w)),
{
    lemma_word_found(pre, w, post, 0);
}

proof fn lemma_word_found(pre: Seq<char>, w: Seq<char>, post: Seq<char>, at: nat)
    requires
        w.len() > 0,
        all_word(w),
        pre.len() > 0 ==> !alphanumeric(pre[pre.len() - 1]),
        post.len() > 0 ==> !alphanumeric(post[0]),
    ensures
        words_from(pre + w + post, at).contains((at + byte_len(pre), w)),
    decreases pre.len(),
{
    let s = pre + w + post;
    let all = words_from(s, at);
    let want = (at + byte_len(pre), w);
    if pre.len() == 0 {
        assert(s =~= w + post);
        assert(s[0] == w[0]);
        lemma_run_len(w, post);
        assert(s.take(w.len() as int) =~= w);
        assert(pre =~= Seq::<char>::empty());
        assert(all[0] == want);
    } else if alphanumeric(s[0]) {
        let k = pre.len() - 1;
        assert(s[k] == pre[k]);
        lemma_run_inside(s, k);
        let n = word_run(s) as int;
        let (head, more) = (pre.take(n), pre.skip(n));
        assert(n >= 1);
        assert(s.take(n) =~= head);
        assert(s.skip(n) =~= more + w + post);
        assert(more[more.len() - 1] == pre[k]);
        lemma_word_found(more, w, post, at + byte_len(head));
        lemma_encode_concat(head, more);
        assert(head + more =~= pre);
        let tail = words_from(s.skip(n), at + byte_len(head));
        assert(tail.contains(want));
        let i = choose|i: int| 0 <= i < tail.len() && tail[i] == want;
        assert(all[i + 1] == want);
    } else {
        let (head, more) = (pre.take(1), pre.skip(1));
        assert(s.take(1) =~= head);
        assert(s.drop_first() =~= more + w + post);
        if more.len() > 0 {
            assert(more[more.len() - 1] == pre[pre.len() - 1]);
        }
        lemma_word_found(more, w, post, at + byte_len(head));
        lemma_encode_concat(head, more);
        assert(head + more =~= pre);
    }
}

/// Every word of every span is indexed: under the word, or its lower case,
/// with the number of the span and the byte in it.
pub proof fn law_every_word_is_indexed(
    text: Seq<char>,
    spans: Seq<TextSpan>,
    fold: bool,
    i: int,
    s: Seq<char>,
    at: nat,
    w: Seq<char>,
)
    requires
        0 <= i < spans.len(),
        spans.len() <= u32::MAX + 1,
        text_range(text, spans[i].text_off as int, spans[i].len as int) == Some(s),
        words(s).contains((at, w)),
        (if fold {
            lowercase(w)
        } else {
            w
        }).len() > 0,
    ensures
        ({
            let key = if fold {
                lowercase(w)
            } else {
                w
            };
            let hit = Hit { span_index: i as u32, byte_off: at as u32 };
            &&& all_postings(text, spans, fold).contains((key, hit))
            &&& hits_for(all_postings(text, spans, fold), key).contains(hit)
        }),
{
    let key = if fold {
        lowercase(w)
    } else {
        w
    };
    let hit = Hit { span_index: i as u32, byte_off: at as u32 };
    lemma_postings(text, spans, fold, i, s, at, w);
    lemma_hits_for(all_postings(text, spans, fold), key, hit);
}

proof fn lemma_postings(
    text: Seq<char>,
    spans: Seq<TextSpan>,
    fold: bool,
    i: int,
    s: Seq<char>,
    at: nat,
    w: Seq<char>,
)
    requires
        0 <= i < spans.len(),
        text_range(text, spans[i].text_off as int, spans[i].len as int) == Some(s),
        words(s).contains((at, w)),
        (if fold {
            lowercase(w)
        } else {
            w
        }).len() > 0,
    ensures
        all_postings(text, spans, fold).contains(
            (
                if fold {
                    lowercase(w)
                } else {
                    w
                },
                Hit { span_index: i as u32, byte_off: at as u32 },
            ),
        ),
    decreases spans.len(),
{
    let key = if fold {
        lowercase(w)
    } else {
        w
    };
    let want = (key, Hit { span_index: i as u32, byte_off: at as u32 });
    let n = spans.len() - 1;
    let init = spans.drop_last();
    let head = all_postings(text, init, fold);
    let tail = span_postings(span_words(text, spans.last()), n as u32, fold);
    let all = all_postings(text, spans, fold);
    if i < n {
        assert(init[i] == spans[i]);
        lemma_postings(text, init, fold, i, s, at, w);
        let j = choose|j: int| 0 <= j < head.len() && head[j] == want;
        assert(all[j] == want);
    } else {
        lemma_span_postings(words(s), n as u32, fold, at, w);
        let j = choose|j: int| 0 <= j < tail.len() && tail[j] == want;
        assert(all[head.len() + j] == want);
    }
}

proof fn lemma_span_postings(
    ws: Seq<(nat, Seq<char>)>,
    index: u32,
    fold: bool,
    at: nat,
    w: Seq<char>,
)
    requires
        ws.contains((at, w)),
        (if fold {
            lowercase(w)
        } else {
            w
        }).len() > 0,
    ensures
        span_postings(ws, index, fold).contains(
            (
                if fold {
                    lowercase(w)
                } else {
                    w
                },
                Hit { span_index: index, byte_off: at as u32 },
            ),
        ),
    decreases ws.len(),
{
    let key = if fold {
        lowercase(w)
    } else {
        w
    };
    let want = (key, Hit { span_index: index, byte_off: at as u32 });
    let k = choose|k: int| 0 <= k < ws.len() && ws[k] == (at, w);
    let init = ws.drop_last();
    let head = span_postings(init, index, fold);
    let all = span_postings(ws, index, fold);
    if k < init.len() {
        assert(init[k] == (at, w));
        lemma_span_postings(init, index, fold, at, w);
        let j = choose|j: int| 0 <= j < head.len() && head[j] == want;
        assert(all[j] == want);
    } else {
        assert(all[head.len() as int] == want);
    }
}

proof fn lemma_hits_for(all: Seq<Posting>, key: Seq<char>, hit: Hit)
    ensures
        hits_for(all, key).contains(hit) <==> all.contains((key, hit)),
    decreases all.len(),
{
    if all.len() > 0 {
        let init = all.drop_last();
        let last = all.last();
        let head = hits_for(init, key);
        let now = hits_for(all, key);
        lemma_hits_for(init, key, hit);
        if all.contains((key, hit)) {
            let j = choose|j: int| 0 <= j < all.len() && all[j] == (key, hit);
            if j < init.len() {
                assert(init[j] == (key, hit));
                let m = choose|m: int| 0 <= m < head.len() && head[m] == hit;
                assert(now[m] == hit);
            } else {
                assert(now[head.len() as int] == hit);
            }
        }
        if now.contains(hit) {
            let m = choose|m: int| 0 <= m < now.len() && now[m] == hit;
            if m < head.len() {
                assert(head[m] == hit);
                let j = choose|j: int| 0 <= j < init.len() && init[j] == (key, hit);
                assert(all[j] == (key, hit));
            } else {
                assert(all[all.len() - 1] == (key, hit));
            }
        }
    }
}

} // verus!
