//! Search hits: uniqueness, grouping by packed body, and the printed report.
//!
//! One logical message is one hit: the key is conversation id, field and the
//! whole span text, not the snippet window and not the span offset. Display
//! and RPC group the unique hits by span text, so that one body in two
//! conversations is one snippet with two occurrence rows.
use vstd::hash_map::StringHashMap;
use vstd::prelude::*;

use crate::paths::{opt_str, opt_view};
use crate::text::{cat, cat3, decimal, decimal_usize, same_str};

verus! {

/// Snippet groups printed by default. Zero means no print cap.
pub const DEFAULT_SEARCH_MAX_COUNT: usize = 100;

/// Flags of a search.
#[derive(Clone, Copy, Debug, PartialEq, Eq, Structural)]
pub struct SearchFlags {
    /// Case insensitive.
    pub ignore_case: bool,
    /// Phrase or literal.
    pub fixed_strings: bool,
    /// Whole word.
    pub word_regexp: bool,
}

impl Default for SearchFlags {
    fn default() -> (r: SearchFlags)
        ensures
            !r.ignore_case,
            !r.fixed_strings,
            !r.word_regexp,
    {
        SearchFlags { ignore_case: false, fixed_strings: false, word_regexp: false }
    }
}

/// One search hit. The snippet is a short window of the span text.
#[derive(Debug, Clone, PartialEq, Eq)]
pub struct SearchHit {
    pub conversation_id: Option<String>,
    pub field: &'static str,
    pub snippet: String,
    /// Start of the span in the text blob.
    pub span_off: u64,
    /// The whole span text.
    pub span_text: String,
}

/// One place where a grouped snippet appeared.
#[derive(Debug, Clone, PartialEq, Eq)]
pub struct SearchOccurrence {
    pub archive: Option<String>,
    pub conversation_id: Option<String>,
    pub field: &'static str,
}

/// One printed or RPC snippet with every place where it appeared.
#[derive(Debug, Clone, PartialEq, Eq)]
pub struct SearchSnippetGroup {
    pub snippet: String,
    pub field: &'static str,
    pub occurrences: Vec<SearchOccurrence>,
}

/// A hit with the archive that it came from.
pub struct LabeledHit<'a> {
    pub archive: Option<&'a str>,
    pub hit: &'a SearchHit,
}

/// Unique hits of one archive.
#[derive(Debug)]
pub struct UniqueHits {
    pub hits: Vec<SearchHit>,
    /// Matches that fell on a hit already counted.
    pub duplicate_omitted: usize,
}

/// Identity of a hit.
pub open spec fn hit_key(h: SearchHit) -> (Option<Seq<char>>, Seq<char>, Seq<char>) {
    (opt_view(h.conversation_id), h.field@, h.span_text@)
}

/// Some hit of `s` has the identity `key`.
pub open spec fn has_key(
    s: Seq<SearchHit>,
    key: (Option<Seq<char>>, Seq<char>, Seq<char>),
) -> bool {
    exists|i: int| 0 <= i < s.len() && hit_key(#[trigger] s[i]) == key
}

/// The hits whose identity did not occur before, in order.
pub open spec fn firsts(hits: Seq<SearchHit>) -> Seq<SearchHit>
    decreases hits.len(),
{
    if hits.len() == 0 {
        Seq::empty()
    } else {
        let head = firsts(hits.drop_last());
        if has_key(head, hit_key(hits.last())) {
            head
        } else {
            head.push(hits.last())
        }
    }
}

/// The values of `s` in order of first appearance, each once.
pub open spec fn distinct<A>(s: Seq<A>) -> Seq<A>
    decreases s.len(),
{
    if s.len() == 0 {
        Seq::empty()
    } else {
        let head = distinct(s.drop_last());
        if head.contains(s.last()) {
            head
        } else {
            head.push(s.last())
        }
    }
}

/// Conversation ids of hits.
pub open spec fn ids_of(hits: Seq<SearchHit>) -> Seq<Option<Seq<char>>> {
    Seq::new(hits.len(), |i: int| opt_view(hits[i].conversation_id))
}

/// The hits of conversation `id`, in order.
pub open spec fn with_id(hits: Seq<SearchHit>, id: Option<Seq<char>>) -> Seq<SearchHit>
    decreases hits.len(),
{
    if hits.len() == 0 {
        Seq::empty()
    } else if opt_view(hits.last().conversation_id) == id {
        with_id(hits.drop_last(), id).push(hits.last())
    } else {
        with_id(hits.drop_last(), id)
    }
}

/// The hits of the conversations `ids`, conversation by conversation.
pub open spec fn by_ids(hits: Seq<SearchHit>, ids: Seq<Option<Seq<char>>>) -> Seq<SearchHit>
    decreases ids.len(),
{
    if ids.len() == 0 {
        Seq::empty()
    } else {
        by_ids(hits, ids.drop_last()) + with_id(hits, ids.last())
    }
}

/// The hits grouped by conversation, in order of first appearance.
pub open spec fn by_conversation(hits: Seq<SearchHit>) -> Seq<SearchHit> {
    by_ids(hits, distinct(ids_of(hits)))
}

impl SearchHit {
    /// A copy of this hit.
    pub fn copied(&self) -> (r: SearchHit)
        ensures
            r == *self,
    {
        SearchHit {
            conversation_id: copied_opt(&self.conversation_id),
            field: self.field,
            snippet: self.snippet.clone(),
            span_off: self.span_off,
            span_text: self.span_text.clone(),
        }
    }
}

/// A copy of an optional string.
pub fn copied_opt(s: &Option<String>) -> (r: Option<String>)
    ensures
        r == *s,
{
    match s {
        Some(t) => Some(t.clone()),
        None => None,
    }
}

/// Whether two optional strings are the same.
pub fn same_opt(a: &Option<String>, b: &Option<String>) -> (r: bool)
    ensures
        r == (opt_view(*a) == opt_view(*b)),
{
    match (a, b) {
        (Some(x), Some(y)) => *x == *y,
        (None, None) => true,
        _ => false,
    }
}

/// Slots of strings in order of first appearance.
struct Slots {
    map: StringHashMap<usize>,
}

impl Slots {
    spec fn holds(&self, keys: Seq<Seq<char>>) -> bool {
        &&& forall|i: int|
            0 <= i < keys.len() ==> self.map@.contains_key(#[trigger] keys[i])
                && self.map@[keys[i]] == i
        &&& forall|k: Seq<char>| #[trigger]
            self.map@.contains_key(k) ==> self.map@[k] < keys.len() && keys[self.map@[k] as int]
                == k
    }
}

/// Span texts of labeled hits.
pub open spec fn texts_of(hits: Seq<LabeledHit>) -> Seq<Seq<char>> {
    Seq::new(hits.len(), |i: int| hits[i].hit.span_text@)
}

/// Archive, conversation and field of an occurrence.
pub open spec fn occurrence_view(o: SearchOccurrence) -> (
    Option<Seq<char>>,
    Option<Seq<char>>,
    Seq<char>,
) {
    (opt_view(o.archive), opt_view(o.conversation_id), o.field@)
}

/// Views of occurrences.
pub open spec fn occurrence_views(s: Seq<SearchOccurrence>) -> Seq<
    (Option<Seq<char>>, Option<Seq<char>>, Seq<char>),
> {
    Seq::new(s.len(), |i: int| occurrence_view(s[i]))
}

/// The occurrences of the hits with this span text, in order.
pub open spec fn places(hits: Seq<LabeledHit>, text: Seq<char>) -> Seq<
    (Option<Seq<char>>, Option<Seq<char>>, Seq<char>),
>
    decreases hits.len(),
{
    if hits.len() == 0 {
        Seq::empty()
    } else {
        let head = places(hits.drop_last(), text);
        let last = hits.last();
        if last.hit.span_text@ == text {
            head.push((opt_str(last.archive), opt_view(last.hit.conversation_id), last.hit.field@))
        } else {
            head
        }
    }
}

/// The first hit with this span text.
pub open spec fn first_with(hits: Seq<LabeledHit>, text: Seq<char>) -> SearchHit
    decreases hits.len(),
{
    if hits.len() == 0 {
        arbitrary()
    } else if texts_of(hits.drop_last()).contains(text) {
        first_with(hits.drop_last(), text)
    } else {
        *hits.last().hit
    }
}

/// `g` is the snippet group of `text`.
pub open spec fn group_of(hits: Seq<LabeledHit>, text: Seq<char>, g: SearchSnippetGroup) -> bool {
    &&& g.snippet@ == first_with(hits, text).snippet@
    &&& g.field@ == first_with(hits, text).field@
    &&& occurrence_views(g.occurrences@) == places(hits, text)
}

proof fn lemma_distinct_contains<A>(s: Seq<A>)
    ensures
        forall|x: A| #[trigger] distinct(s).contains(x) <==> s.contains(x),
    decreases s.len(),
{
    if s.len() > 0 {
        lemma_distinct_contains(s.drop_last());
        let head = distinct(s.drop_last());
        assert forall|x: A| #[trigger] distinct(s).contains(x) <==> s.contains(x) by {
            if s.contains(x) {
                let k = choose|k: int| 0 <= k < s.len() && s[k] == x;
                if k < s.len() - 1 {
                    assert(s.drop_last()[k] == x);
                    assert(head.contains(x));
                    let m = choose|m: int| 0 <= m < head.len() && head[m] == x;
                    assert(distinct(s)[m] == x);
                } else if !head.contains(s.last()) {
                    assert(distinct(s)[head.len() as int] == x);
                }
            }
            if distinct(s).contains(x) {
                let k = choose|k: int| 0 <= k < distinct(s).len() && distinct(s)[k] == x;
                if k < head.len() {
                    assert(head[k] == x);
                    assert(head.contains(x));
                    let m = choose|m: int| 0 <= m < s.drop_last().len() && s.drop_last()[m] == x;
                    assert(s[m] == x);
                } else {
                    assert(x == s.last());
                }
            }
        }
    }
}

/// Groups hits by span text. Different texts stay different groups, and no
/// occurrence is dropped.
pub fn group_snippet_occurrences(hits: &Vec<LabeledHit>) -> (r: Vec<SearchSnippetGroup>)
    ensures
        r@.len() == distinct(texts_of(hits@)).len(),
        forall|i: int|
            0 <= i < r@.len() ==> group_of(
                hits@,
                distinct(texts_of(hits@))[i],
                #[trigger] r@[i],
            ),
{
    let mut groups: Vec<SearchSnippetGroup> = Vec::new();
    let mut slots = Slots { map: StringHashMap::new() };
    let mut i: usize = 0;
    proof {
        assert(texts_of(hits@.take(0)) =~= Seq::<Seq<char>>::empty());
    }
    while i < hits.len()
        invariant
            i <= hits@.len(),
            groups@.len() == distinct(texts_of(hits@.take(i as int))).len(),
            slots.holds(distinct(texts_of(hits@.take(i as int)))),
            forall|j: int|
                0 <= j < groups@.len() ==> group_of(
                    hits@.take(i as int),
                    distinct(texts_of(hits@.take(i as int)))[j],
                    #[trigger] groups@[j],
                ),
        decreases hits.len() - i,
    {
        let hit = hits[i].hit;
        let ghost now = hits@.take(i as int);
        let ghost next = hits@.take(i + 1);
        let ghost keys = distinct(texts_of(now));
        proof {
            assert(next.drop_last() =~= now);
            assert(texts_of(next).drop_last() =~= texts_of(now));
            assert(texts_of(next).last() == hit.span_text@);
            lemma_distinct_contains(texts_of(now));
        }
        let archive = match hits[i].archive {
            Some(a) => Some(a.to_owned()),
            None => None,
        };
        let occurrence = SearchOccurrence {
            archive,
            conversation_id: copied_opt(&hit.conversation_id),
            field: hit.field,
        };
        let found = match slots.map.get(hit.span_text.as_str()) {
            Some(slot) => Some(*slot),
            None => None,
        };
        let ghost before = groups@;
        match found {
            Some(slot) => {
                proof {
                    assert(keys[slot as int] == hit.span_text@);
                    assert(keys.contains(hit.span_text@));
                }
                groups[slot].occurrences.push(occurrence);
                proof {
                    assert forall|j: int| 0 <= j < groups@.len() implies group_of(
                        next,
                        keys[j],
                        #[trigger] groups@[j],
                    ) by {
                        assert(group_of(now, keys[j], before[j]));
                        assert(keys.contains(keys[j]));
                        if j == slot {
                            assert(occurrence_views(groups@[j].occurrences@) =~= places(
                                next,
                                keys[j],
                            ));
                        } else {
                            assert(slots.map@[keys[j]] == j);
                        }
                    }
                }
            },
            None => {
                let slot: usize = groups.len();
                let mut list: Vec<SearchOccurrence> = Vec::new();
                list.push(occurrence);
                proof {
                    assert(!keys.contains(hit.span_text@)) by {
                        if keys.contains(hit.span_text@) {
                            let m = choose|m: int|
                                0 <= m < keys.len() && keys[m] == hit.span_text@;
                            assert(slots.map@.contains_key(keys[m]));
                        }
                    }
                    lemma_no_places(now, hit.span_text@);
                    assert(occurrence_views(list@) =~= places(next, hit.span_text@));
                }
                slots.map.insert(hit.span_text.clone(), slot);
                groups.push(
                    SearchSnippetGroup {
                        snippet: hit.snippet.clone(),
                        field: hit.field,
                        occurrences: list,
                    },
                );
                proof {
                    assert(distinct(texts_of(next)) == keys.push(hit.span_text@));
                    assert forall|j: int| 0 <= j < groups@.len() implies group_of(
                        next,
                        keys.push(hit.span_text@)[j],
                        #[trigger] groups@[j],
                    ) by {
                        if j < keys.len() {
                            assert(group_of(now, keys[j], before[j]));
                            assert(keys.contains(keys[j]));
                        }
                    }
                    assert forall|j: int|
                        0 <= j < keys.push(hit.span_text@).len() implies slots.map@.contains_key(
                        #[trigger] keys.push(hit.span_text@)[j],
                    ) && slots.map@[keys.push(hit.span_text@)[j]] == j by {
                        if j < keys.len() {
                            assert(keys.push(hit.span_text@)[j] == keys[j]);
                            assert(keys.contains(keys[j]));
                        }
                    }
                }
            },
        }
        i = i + 1;
    }
    proof {
        assert(hits@.take(hits@.len() as int) =~= hits@);
    }
    groups
}

proof fn lemma_no_places(hits: Seq<LabeledHit>, text: Seq<char>)
    requires
        !texts_of(hits).contains(text),
    ensures
        places(hits, text).len() == 0,
    decreases hits.len(),
{
    if hits.len() > 0 {
        assert(texts_of(hits)[hits.len() - 1] != text);
        assert(!texts_of(hits.drop_last()).contains(text)) by {
            if texts_of(hits.drop_last()).contains(text) {
                let k = choose|k: int|
                    0 <= k < hits.drop_last().len() && texts_of(hits.drop_last())[k] == text;
                assert(texts_of(hits)[k] == text);
            }
        }
        lemma_no_places(hits.drop_last(), text);
    }
}

/// Kept hits whose span text has a slot, by slot.
spec fn buckets_hold(
    kept: Seq<SearchHit>,
    texts: Map<Seq<char>, usize>,
    buckets: Seq<Vec<usize>>,
) -> bool {
    &&& forall|t: Seq<char>| #[trigger] texts.contains_key(t) ==> texts[t] < buckets.len()
    &&& forall|k: int|
        0 <= k < kept.len() ==> texts.contains_key((#[trigger] kept[k]).span_text@)
            && buckets[texts[kept[k].span_text@] as int]@.contains(k as usize)
    &&& forall|b: int, m: int|
        0 <= b < buckets.len() && 0 <= m < buckets[b]@.len() ==> (#[trigger] buckets[b]@[m])
            < kept.len()
}

/// Whether a kept hit of the bucket has the identity of `hit`.
fn in_bucket(kept: &Vec<SearchHit>, bucket: &Vec<usize>, hit: &SearchHit) -> (r: bool)
    requires
        forall|m: int| 0 <= m < bucket@.len() ==> (#[trigger] bucket@[m]) < kept@.len(),
    ensures
        r == exists|m: int|
            0 <= m < bucket@.len() && hit_key(kept@[#[trigger] bucket@[m] as int]) == hit_key(*hit),
{
    let mut m: usize = 0;
    while m < bucket.len()
        invariant
            m <= bucket@.len(),
            forall|x: int| 0 <= x < bucket@.len() ==> (#[trigger] bucket@[x]) < kept@.len(),
            forall|x: int|
                0 <= x < m ==> hit_key(kept@[#[trigger] bucket@[x] as int]) != hit_key(*hit),
        decreases bucket.len() - m,
    {
        let other = &kept[bucket[m]];
        if same_opt(&other.conversation_id, &hit.conversation_id) && same_str(other.field, hit.field)
            && other.span_text == hit.span_text {
            return true;
        }
        m = m + 1;
    }
    false
}

/// The hits whose identity did not occur before.
fn first_hits(hits: &Vec<SearchHit>) -> (r: Vec<SearchHit>)
    ensures
        r@ == firsts(hits@),
{
    let mut kept: Vec<SearchHit> = Vec::new();
    let mut texts: StringHashMap<usize> = StringHashMap::new();
    let mut buckets: Vec<Vec<usize>> = Vec::new();
    let mut i: usize = 0;
    proof {
        assert(hits@.take(0) =~= Seq::<SearchHit>::empty());
    }
    while i < hits.len()
        invariant
            i <= hits@.len(),
            kept@ == firsts(hits@.take(i as int)),
            buckets_hold(kept@, texts@, buckets@),
        decreases hits.len() - i,
    {
        let hit = &hits[i];
        proof {
            assert(hits@.take(i + 1).drop_last() =~= hits@.take(i as int));
        }
        let slot = match texts.get(hit.span_text.as_str()) {
            Some(slot) => Some(*slot),
            None => None,
        };
        let index: usize = kept.len();
        let ghost before = kept@;
        match slot {
            Some(slot) => {
                if in_bucket(&kept, &buckets[slot], hit) {
                    proof {
                        assert(has_key(kept@, hit_key(*hit)));
                    }
                } else {
                    proof {
                        assert(!has_key(kept@, hit_key(*hit))) by {
                            if has_key(kept@, hit_key(*hit)) {
                                let k = choose|k: int|
                                    0 <= k < kept@.len() && hit_key(#[trigger] kept@[k])
                                        == hit_key(*hit);
                                let b = buckets@[slot as int]@;
                                assert(b.contains(k as usize));
                                let m = choose|m: int| 0 <= m < b.len() && b[m] == k as usize;
                                assert(hit_key(kept@[b[m] as int]) == hit_key(*hit));
                            }
                        }
                    }
                    kept.push(hit.copied());
                    let ghost old_buckets = buckets@;
                    buckets[slot].push(index);
                    proof {
                        lemma_bucket_push(
                            before,
                            *hit,
                            texts@,
                            old_buckets,
                            buckets@,
                            slot as int,
                            index,
                        );
                    }
                }
            },
            None => {
                proof {
                    assert(!has_key(kept@, hit_key(*hit))) by {
                        if has_key(kept@, hit_key(*hit)) {
                            let k = choose|k: int|
                                0 <= k < kept@.len() && hit_key(#[trigger] kept@[k]) == hit_key(
                                    *hit,
                                );
                            assert(texts@.contains_key(kept@[k].span_text@));
                        }
                    }
                }
                let mut list: Vec<usize> = Vec::new();
                list.push(index);
                let ghost old_texts = texts@;
                let ghost old_buckets = buckets@;
                let fresh: usize = buckets.len();
                texts.insert(hit.span_text.clone(), fresh);
                buckets.push(list);
                kept.push(hit.copied());
                proof {
                    assert forall|k: int| 0 <= k < kept@.len() implies texts@.contains_key(
                        (#[trigger] kept@[k]).span_text@,
                    ) && buckets@[texts@[kept@[k].span_text@] as int]@.contains(k as usize) by {
                        if k < before.len() {
                            assert(kept@[k] == before[k]);
                            assert(old_texts.contains_key(before[k].span_text@));
                        } else {
                            assert(list@[0] == index);
                        }
                    }
                }
            },
        }
        i = i + 1;
    }
    proof {
        assert(hits@.take(hits@.len() as int) =~= hits@);
    }
    kept
}

proof fn lemma_bucket_push(
    kept: Seq<SearchHit>,
    hit: SearchHit,
    texts: Map<Seq<char>, usize>,
    old_buckets: Seq<Vec<usize>>,
    buckets: Seq<Vec<usize>>,
    slot: int,
    index: usize,
)
    requires
        buckets_hold(kept, texts, old_buckets),
        index == kept.len(),
        texts.contains_key(hit.span_text@),
        texts[hit.span_text@] == slot,
        0 <= slot < old_buckets.len(),
        buckets.len() == old_buckets.len(),
        buckets[slot]@ == old_buckets[slot]@.push(index),
        forall|b: int| 0 <= b < buckets.len() && b != slot ==> buckets[b] == old_buckets[b],
    ensures
        buckets_hold(kept.push(hit), texts, buckets),
{
    let next = kept.push(hit);
    assert forall|k: int| 0 <= k < next.len() implies texts.contains_key(
        (#[trigger] next[k]).span_text@,
    ) && buckets[texts[next[k].span_text@] as int]@.contains(k as usize) by {
        if k < kept.len() {
            assert(next[k] == kept[k]);
            let b = texts[kept[k].span_text@] as int;
            assert(old_buckets[b]@.contains(k as usize));
            if b == slot {
                let m = choose|m: int|
                    0 <= m < old_buckets[b]@.len() && old_buckets[b]@[m] == k as usize;
                assert(buckets[b]@[m] == k as usize);
            }
        } else {
            assert(buckets[slot]@[old_buckets[slot]@.len() as int] == index);
        }
    }
    assert forall|b: int, m: int| 0 <= b < buckets.len() && 0 <= m < buckets[b]@.len() implies (
    #[trigger] buckets[b]@[m]) < next.len() by {
        if b == slot {
            if m < old_buckets[b]@.len() {
                assert(buckets[b]@[m] == old_buckets[b]@[m]);
            }
        } else {
            assert(buckets[b]@[m] == old_buckets[b]@[m]);
        }
    }
}

/// Buckets of hits by conversation.
spec fn conversations_hold(
    hits: Seq<SearchHit>,
    ids: Seq<Option<Seq<char>>>,
    named: Map<Seq<char>, usize>,
    unnamed: Option<usize>,
    buckets: Seq<Vec<SearchHit>>,
) -> bool {
    &&& ids == distinct(ids_of(hits))
    &&& buckets.len() == ids.len()
    &&& forall|j: int| 0 <= j < ids.len() ==> (#[trigger] buckets[j])@ == with_id(hits, ids[j])
    &&& forall|j: int|
        0 <= j < ids.len() ==> match #[trigger] ids[j] {
            Some(t) => named.contains_key(t) && named[t] == j,
            None => unnamed matches Some(u) && u == j,
        }
    &&& forall|t: Seq<char>| #[trigger]
        named.contains_key(t) ==> named[t] < ids.len() && ids[named[t] as int] == Some(t)
    &&& match unnamed {
        Some(j) => j < ids.len() && ids[j as int] is None,
        None => true,
    }
}

proof fn lemma_no_id(hits: Seq<SearchHit>, id: Option<Seq<char>>)
    requires
        !ids_of(hits).contains(id),
    ensures
        with_id(hits, id).len() == 0,
    decreases hits.len(),
{
    if hits.len() > 0 {
        assert(ids_of(hits)[hits.len() - 1] != id);
        assert(!ids_of(hits.drop_last()).contains(id)) by {
            if ids_of(hits.drop_last()).contains(id) {
                let k = choose|k: int|
                    0 <= k < hits.drop_last().len() && ids_of(hits.drop_last())[k] == id;
                assert(ids_of(hits)[k] == id);
            }
        }
        lemma_no_id(hits.drop_last(), id);
    }
}

/// Groups hits by conversation, in order of first appearance.
fn group_by_conversation(hits: &Vec<SearchHit>) -> (r: Vec<SearchHit>)
    ensures
        r@ == by_conversation(hits@),
{
    let mut named: StringHashMap<usize> = StringHashMap::new();
    let mut unnamed: Option<usize> = None;
    let mut buckets: Vec<Vec<SearchHit>> = Vec::new();
    let ghost mut ids: Seq<Option<Seq<char>>> = Seq::empty();
    let mut i: usize = 0;
    proof {
        assert(hits@.take(0) =~= Seq::<SearchHit>::empty());
        assert(ids_of(hits@.take(0)) =~= Seq::<Option<Seq<char>>>::empty());
    }
    while i < hits.len()
        invariant
            i <= hits@.len(),
            conversations_hold(hits@.take(i as int), ids, named@, unnamed, buckets@),
        decreases hits.len() - i,
    {
        let hit = &hits[i];
        let ghost now = hits@.take(i as int);
        let ghost next = hits@.take(i + 1);
        let ghost id = opt_view(hit.conversation_id);
        proof {
            assert(next.drop_last() =~= now);
            assert(ids_of(next).drop_last() =~= ids_of(now));
            assert(ids_of(next).last() == id);
            lemma_distinct_contains(ids_of(now));
        }
        let slot = match &hit.conversation_id {
            Some(t) => match named.get(t.as_str()) {
                Some(j) => Some(*j),
                None => None,
            },
            None => unnamed,
        };
        let ghost before = buckets@;
        match slot {
            Some(j) => {
                proof {
                    assert(ids[j as int] == id);
                    assert(ids.contains(id));
                }
                buckets[j].push(hit.copied());
                proof {
                    assert forall|k: int| 0 <= k < ids.len() implies (#[trigger] buckets@[k])@
                        == with_id(next, ids[k]) by {
                        assert(before[k]@ == with_id(now, ids[k]));
                        if k != j {
                            assert(ids[k] != id);
                        }
                    }
                }
            },
            None => {
                proof {
                    assert(!ids.contains(id)) by {
                        if ids.contains(id) {
                            let m = choose|m: int| 0 <= m < ids.len() && ids[m] == id;
                            assert(ids[m] == id);
                        }
                    }
                    lemma_no_id(now, id);
                }
                let fresh: usize = buckets.len();
                let mut list: Vec<SearchHit> = Vec::new();
                list.push(hit.copied());
                proof {
                    assert(list@ =~= with_id(next, id));
                }
                buckets.push(list);
                match &hit.conversation_id {
                    Some(t) => {
                        named.insert(t.clone(), fresh);
                    },
                    None => {
                        unnamed = Some(fresh);
                    },
                }
                let ghost old_ids = ids;
                proof {
                    ids = ids.push(id);
                    assert forall|k: int| 0 <= k < ids.len() implies (#[trigger] buckets@[k])@
                        == with_id(next, ids[k]) by {
                        if k < old_ids.len() {
                            assert(before[k]@ == with_id(now, old_ids[k]));
                            assert(old_ids.contains(old_ids[k]));
                        }
                    }
                    assert forall|k: int| 0 <= k < ids.len() implies match #[trigger] ids[k] {
                        Some(t) => named@.contains_key(t) && named@[t] == k,
                        None => unnamed matches Some(u) && u == k,
                    } by {
                        if k < old_ids.len() {
                            assert(ids[k] == old_ids[k]);
                            assert(old_ids.contains(old_ids[k]));
                        }
                    }
                }
            },
        }
        i = i + 1;
    }
    proof {
        assert(hits@.take(hits@.len() as int) =~= hits@);
    }
    let mut out: Vec<SearchHit> = Vec::new();
    let mut j: usize = 0;
    while j < buckets.len()
        invariant
            j <= buckets@.len(),
            conversations_hold(hits@, ids, named@, unnamed, buckets@),
            out@ == by_ids(hits@, ids.take(j as int)),
        decreases buckets.len() - j,
    {
        proof {
            assert(ids.take(j + 1).drop_last() =~= ids.take(j as int));
        }
        append_hits(&mut out, &buckets[j]);
        j = j + 1;
    }
    proof {
        assert(ids.take(ids.len() as int) =~= ids);
    }
    out
}

fn append_hits(out: &mut Vec<SearchHit>, more: &Vec<SearchHit>)
    ensures
        final(out)@ == old(out)@ + more@,
{
    let mut k: usize = 0;
    proof {
        assert(out@ =~= old(out)@ + more@.take(0));
    }
    while k < more.len()
        invariant
            k <= more@.len(),
            out@ == old(out)@ + more@.take(k as int),
        decreases more.len() - k,
    {
        out.push(more[k].copied());
        proof {
            assert(out@ =~= old(out)@ + more@.take(k + 1));
        }
        k = k + 1;
    }
    proof {
        assert(more@.take(more@.len() as int) =~= more@);
    }
}

/// One hit for each identity, the first, grouped by conversation.
pub fn unique_hits(hits: Vec<SearchHit>) -> (r: UniqueHits)
    ensures
        r.hits@ == by_conversation(firsts(hits@)),
        r.duplicate_omitted == hits@.len() - r.hits@.len(),
        r.hits@.len() <= hits@.len(),
{
    let kept = first_hits(&hits);
    let unique = group_by_conversation(&kept);
    proof {
        law_grouping_keeps_hits(kept@);
        lemma_firsts_len(hits@);
        kept@.to_multiset_ensures();
        unique@.to_multiset_ensures();
    }
    UniqueHits { duplicate_omitted: hits.len() - unique.len(), hits: unique }
}

proof fn lemma_firsts_len(hits: Seq<SearchHit>)
    ensures
        firsts(hits).len() <= hits.len(),
    decreases hits.len(),
{
    if hits.len() > 0 {
        lemma_firsts_len(hits.drop_last());
    }
}

/// Uniqueness: no two kept hits share an identity, every identity is kept,
/// and every kept hit is one of the hits.
pub proof fn law_unique_hits(hits: Seq<SearchHit>)
    ensures
        forall|i: int, j: int|
            0 <= i < j < firsts(hits).len() ==> hit_key(#[trigger] firsts(hits)[i]) != hit_key(
                #[trigger] firsts(hits)[j],
            ),
        forall|i: int| 0 <= i < hits.len() ==> has_key(firsts(hits), hit_key(#[trigger] hits[i])),
        forall|i: int|
            0 <= i < firsts(hits).len() ==> hits.contains(#[trigger] firsts(hits)[i]),
    decreases hits.len(),
{
    if hits.len() > 0 {
        let init = hits.drop_last();
        law_unique_hits(init);
        let head = firsts(init);
        let all = firsts(hits);
        assert forall|i: int| 0 <= i < hits.len() implies has_key(
            all,
            hit_key(#[trigger] hits[i]),
        ) by {
            if i < init.len() {
                assert(init[i] == hits[i]);
                assert(has_key(head, hit_key(init[i])));
                let k = choose|k: int|
                    0 <= k < head.len() && hit_key(#[trigger] head[k]) == hit_key(init[i]);
                assert(all[k] == head[k]);
            } else if !has_key(head, hit_key(hits.last())) {
                assert(all[head.len() as int] == hits[i]);
            }
        }
        assert forall|i: int| 0 <= i < all.len() implies hits.contains(#[trigger] all[i]) by {
            if i < head.len() {
                assert(all[i] == head[i]);
                assert(init.contains(head[i]));
                let k = choose|k: int| 0 <= k < init.len() && init[k] == head[i];
                assert(hits[k] == all[i]);
            } else {
                assert(hits[hits.len() - 1] == all[i]);
            }
        }
        assert forall|i: int, j: int| 0 <= i < j < all.len() implies hit_key(#[trigger] all[i])
            != hit_key(#[trigger] all[j]) by {
            assert(all[i] == head[i]);
            if j < head.len() {
                assert(all[j] == head[j]);
            }
        }
    }
}

proof fn lemma_distinct_once<A>(s: Seq<A>)
    ensures
        distinct(s).no_duplicates(),
    decreases s.len(),
{
    if s.len() > 0 {
        lemma_distinct_once(s.drop_last());
    }
}

proof fn lemma_by_ids_push(hits: Seq<SearchHit>, h: SearchHit, ids: Seq<Option<Seq<char>>>)
    requires
        ids.no_duplicates(),
    ensures
        by_ids(hits.push(h), ids).to_multiset() == if ids.contains(opt_view(h.conversation_id)) {
            by_ids(hits, ids).to_multiset().insert(h)
        } else {
            by_ids(hits, ids).to_multiset()
        },
    decreases ids.len(),
{
    broadcast use vstd::seq_lib::group_to_multiset_ensures;

    let id = opt_view(h.conversation_id);
    assert(hits.push(h).drop_last() =~= hits);
    if ids.len() > 0 {
        let init = ids.drop_last();
        lemma_by_ids_push(hits, h, init);
        let a = by_ids(hits, init);
        let b = with_id(hits, ids.last());
        let a2 = by_ids(hits.push(h), init);
        let b2 = with_id(hits.push(h), ids.last());
        vstd::seq_lib::lemma_multiset_commutative(a, b);
        vstd::seq_lib::lemma_multiset_commutative(a2, b2);
        if ids.last() == id {
            assert(ids[ids.len() - 1] == id);
            assert(!init.contains(id));
            assert(b2 == b.push(h));
            assert(a2.to_multiset().add(b2.to_multiset()) =~= a.to_multiset().add(
                b.to_multiset(),
            ).insert(h));
        } else {
            assert(b2 == b);
            assert(ids.contains(id) <==> init.contains(id)) by {
                if ids.contains(id) {
                    let k = choose|k: int| 0 <= k < ids.len() && ids[k] == id;
                    assert(init[k] == id);
                }
                if init.contains(id) {
                    let k = choose|k: int| 0 <= k < init.len() && init[k] == id;
                    assert(ids[k] == id);
                }
            }
            if init.contains(id) {
                assert(a2.to_multiset().add(b.to_multiset()) =~= a.to_multiset().add(
                    b.to_multiset(),
                ).insert(h));
            }
        }
    }
}

proof fn lemma_by_ids_all(hits: Seq<SearchHit>, ids: Seq<Option<Seq<char>>>)
    requires
        ids.no_duplicates(),
        forall|i: int| 0 <= i < hits.len() ==> ids.contains(#[trigger] ids_of(hits)[i]),
    ensures
        by_ids(hits, ids).to_multiset() == hits.to_multiset(),
    decreases hits.len(),
{
    broadcast use vstd::seq_lib::group_to_multiset_ensures;

    if hits.len() == 0 {
        lemma_by_ids_empty(hits, ids);
        assert(by_ids(hits, ids) =~= hits);
    } else {
        let init = hits.drop_last();
        assert forall|i: int| 0 <= i < init.len() implies ids.contains(
            #[trigger] ids_of(init)[i],
        ) by {
            assert(ids_of(init)[i] == ids_of(hits)[i]);
        }
        lemma_by_ids_all(init, ids);
        lemma_by_ids_push(init, hits.last(), ids);
        assert(init.push(hits.last()) =~= hits);
        assert(ids.contains(ids_of(hits)[hits.len() - 1]));
    }
}

proof fn lemma_by_ids_empty(hits: Seq<SearchHit>, ids: Seq<Option<Seq<char>>>)
    requires
        hits.len() == 0,
    ensures
        by_ids(hits, ids).len() == 0,
    decreases ids.len(),
{
    if ids.len() > 0 {
        lemma_by_ids_empty(hits, ids.drop_last());
    }
}

/// Grouping by conversation drops no hit and adds none.
pub proof fn law_grouping_keeps_hits(hits: Seq<SearchHit>)
    ensures
        by_conversation(hits).to_multiset() == hits.to_multiset(),
{
    let ids = ids_of(hits);
    lemma_distinct_once(ids);
    lemma_distinct_contains(ids);
    assert forall|i: int| 0 <= i < hits.len() implies distinct(ids).contains(
        #[trigger] ids_of(hits)[i],
    ) by {
        assert(ids.contains(ids[i]));
    }
    lemma_by_ids_all(hits, distinct(ids));
}

/// The text of an occurrence row.
pub open spec fn occurrence_text(o: SearchOccurrence) -> Seq<char> {
    let id = match o.conversation_id {
        Some(t) => t@,
        None => "-"@,
    };
    match o.archive {
        Some(a) => "archive "@ + a@ + "  conversation "@ + id + "  field "@ + o.field@,
        None => "conversation "@ + id + "  field "@ + o.field@,
    }
}

impl SearchOccurrence {
    /// The text of this row.
    pub fn row(&self) -> (r: String)
        ensures
            r@ == occurrence_text(*self),
    {
        let mut out = match &self.archive {
            Some(a) => cat3("archive ", a.as_str(), "  conversation "),
            None => "conversation ".to_owned(),
        };
        match &self.conversation_id {
            Some(t) => out.push_str(t.as_str()),
            None => out.push_str("-"),
        }
        out.push_str("  field ");
        out.push_str(self.field);
        out
    }
}

/// Occurrence rows, one line each.
pub open spec fn rows_text(s: Seq<SearchOccurrence>) -> Seq<char>
    decreases s.len(),
{
    if s.len() == 0 {
        Seq::empty()
    } else {
        rows_text(s.drop_last()) + "      "@ + occurrence_text(s.last()) + "\n"@
    }
}

/// One printed group: field, snippet, then where it is present.
pub open spec fn group_text(g: SearchSnippetGroup) -> Seq<char> {
    "  "@ + g.field@ + "\n    "@ + g.snippet@ + "\n    present in:\n"@ + rows_text(g.occurrences@)
}

/// Printed groups.
pub open spec fn groups_text(s: Seq<SearchSnippetGroup>) -> Seq<char>
    decreases s.len(),
{
    if s.len() == 0 {
        Seq::empty()
    } else {
        groups_text(s.drop_last()) + group_text(s.last())
    }
}

/// How many of `n` groups are printed. Zero means no cap.
pub open spec fn print_cap(n: nat, max_count: nat) -> nat {
    if max_count == 0 || n <= max_count {
        n
    } else {
        max_count
    }
}

/// What is said of groups and hits that are not printed.
pub open spec fn suppressed_text(not_shown: nat, omitted: nat) -> Seq<char> {
    let dup = decimal(omitted) + " duplicate hits omitted"@;
    let more = if not_shown == 1 {
        "1 more snippet group not shown"@
    } else {
        decimal(not_shown) + " more snippet groups not shown"@
    };
    if not_shown == 0 {
        dup
    } else if omitted == 0 {
        more
    } else {
        more + ", "@ + dup
    }
}

/// The printed report of snippet groups.
pub open spec fn report_text(
    groups: Seq<SearchSnippetGroup>,
    max_count: nat,
    omitted: nat,
) -> Seq<char> {
    let cap = print_cap(groups.len(), max_count);
    let shown = groups_text(groups.take(cap as int));
    let not_shown = (groups.len() - cap) as nat;
    if not_shown > 0 || omitted > 0 {
        shown + "  ("@ + suppressed_text(not_shown, omitted) + ")\n"@
    } else {
        shown
    }
}

/// What is said of groups and hits that are not printed.
pub fn suppressed_clause(not_shown: usize, duplicate_omitted: usize) -> (r: String)
    ensures
        r@ == suppressed_text(not_shown as nat, duplicate_omitted as nat),
{
    let d = decimal_usize(duplicate_omitted);
    let dup = cat(d.as_str(), " duplicate hits omitted");
    if not_shown == 0 {
        return dup;
    }
    let more = if not_shown == 1 {
        "1 more snippet group not shown".to_owned()
    } else {
        let n = decimal_usize(not_shown);
        cat(n.as_str(), " more snippet groups not shown")
    };
    if duplicate_omitted == 0 {
        more
    } else {
        cat3(more.as_str(), ", ", dup.as_str())
    }
}

/// How many of `n` groups are printed.
pub fn printed_count(n: usize, max_count: usize) -> (r: usize)
    ensures
        r == print_cap(n as nat, max_count as nat),
{
    if max_count == 0 || n <= max_count {
        n
    } else {
        max_count
    }
}

/// The printed report of snippet groups, and how many groups it shows.
pub fn write_snippet_groups(
    groups: &Vec<SearchSnippetGroup>,
    max_count: usize,
    duplicate_omitted: usize,
) -> (r: (String, usize))
    ensures
        r.0@ == report_text(groups@, max_count as nat, duplicate_omitted as nat),
        r.1 == print_cap(groups@.len(), max_count as nat),
{
    let cap = printed_count(groups.len(), max_count);
    let mut out = String::new();
    let mut i: usize = 0;
    proof {
        assert(groups@.take(0) =~= Seq::<SearchSnippetGroup>::empty());
    }
    while i < cap
        invariant
            i <= cap <= groups@.len(),
            out@ == groups_text(groups@.take(i as int)),
        decreases cap - i,
    {
        let g = &groups[i];
        let ghost before = out@;
        out.push_str("  ");
        out.push_str(g.field);
        out.push_str("\n    ");
        out.push_str(g.snippet.as_str());
        out.push_str("\n    present in:\n");
        let ghost head = out@;
        let mut j: usize = 0;
        proof {
            assert(g.occurrences@.take(0) =~= Seq::<SearchOccurrence>::empty());
            assert(head + rows_text(g.occurrences@.take(0)) =~= head);
        }
        while j < g.occurrences.len()
            invariant
                j <= g.occurrences@.len(),
                out@ == head + rows_text(g.occurrences@.take(j as int)),
            decreases g.occurrences.len() - j,
        {
            let row = g.occurrences[j].row();
            proof {
                assert(g.occurrences@.take(j + 1).drop_last() =~= g.occurrences@.take(j as int));
            }
            out.push_str("      ");
            out.push_str(row.as_str());
            out.push_str("\n");
            proof {
                let r = rows_text(g.occurrences@.take(j as int));
                assert(out@ =~= head + (r + "      "@ + row@ + "\n"@));
            }
            j = j + 1;
        }
        proof {
            assert(g.occurrences@.take(g.occurrences@.len() as int) =~= g.occurrences@);
            assert(groups@.take(i + 1).drop_last() =~= groups@.take(i as int));
            assert(out@ =~= before + group_text(*g));
        }
        i = i + 1;
    }
    let not_shown: usize = groups.len() - cap;
    if not_shown > 0 || duplicate_omitted > 0 {
        let clause = suppressed_clause(not_shown, duplicate_omitted);
        out.push_str("  (");
        out.push_str(clause.as_str());
        out.push_str(")\n");
    }
    (out, cap)
}

/// Hits with the archive `archive`.
fn label_hits<'a>(archive: Option<&'a str>, hits: &'a Vec<SearchHit>) -> (r: Vec<LabeledHit<'a>>)
    ensures
        r@.len() == hits@.len(),
        forall|i: int|
            0 <= i < r@.len() ==> (#[trigger] r@[i]).archive == archive && *r@[i].hit == hits@[i],
{
    let mut out: Vec<LabeledHit> = Vec::new();
    let mut i: usize = 0;
    while i < hits.len()
        invariant
            i <= hits@.len(),
            out@.len() == i,
            forall|k: int|
                0 <= k < i ==> (#[trigger] out@[k]).archive == archive && *out@[k].hit == hits@[k],
        decreases hits.len() - i,
    {
        out.push(LabeledHit { archive, hit: &hits[i] });
        i = i + 1;
    }
    out
}

/// `groups` are the snippet groups of `hits`, all of the archive `archive`.
pub open spec fn groups_of(
    archive: Option<&str>,
    hits: Seq<SearchHit>,
    groups: Seq<SearchSnippetGroup>,
) -> bool {
    exists|labeled: Seq<LabeledHit>|
        {
            &&& labeled.len() == hits.len()
            &&& forall|i: int|
                0 <= i < labeled.len() ==> (#[trigger] labeled[i]).archive == archive
                    && *labeled[i].hit == hits[i]
            &&& #[trigger] distinct(texts_of(labeled)).len() == groups.len()
            &&& forall|i: int|
                0 <= i < groups.len() ==> group_of(
                    labeled,
                    distinct(texts_of(labeled))[i],
                    #[trigger] groups[i],
                )
        }
}

/// The snippet groups of the hits of one archive.
pub fn group_hits(archive: Option<&str>, hits: &Vec<SearchHit>) -> (r: Vec<SearchSnippetGroup>)
    ensures
        groups_of(archive, hits@, r@),
{
    let labeled = label_hits(archive, hits);
    let r = group_snippet_occurrences(&labeled);
    proof {
        assert(distinct(texts_of(labeled@)).len() == r@.len());
    }
    r
}

/// The printed report of hits without archive labels.
pub fn write_hits_grouped(
    hits: &Vec<SearchHit>,
    max_count: usize,
    duplicate_omitted: usize,
) -> (r: (String, usize))
    ensures
        exists|groups: Seq<SearchSnippetGroup>| #[trigger]
            groups_of(None, hits@, groups) && r.0@ == report_text(
                groups,
                max_count as nat,
                duplicate_omitted as nat,
            ) && r.1 == print_cap(groups.len(), max_count as nat),
{
    let groups = group_hits(None, hits);
    write_snippet_groups(&groups, max_count, duplicate_omitted)
}

/// How many search workers run: one for each archive, at most one for each
/// processor, at least one.
pub fn search_worker_count(nfiles: usize, cpus: usize) -> (r: usize)
    ensures
        r >= 1,
        r == (if nfiles == 0 || cpus == 0 {
            1int
        } else if nfiles <= cpus {
            nfiles as int
        } else {
            cpus as int
        }),
{
    if nfiles == 0 || cpus == 0 {
        1
    } else if nfiles <= cpus {
        nfiles
    } else {
        cpus
    }
}

/// Occurrences of all groups together.
pub open spec fn occurrence_total(groups: Seq<SearchSnippetGroup>) -> nat
    decreases groups.len(),
{
    if groups.len() == 0 {
        0
    } else {
        occurrence_total(groups.drop_last()) + groups.last().occurrences@.len()
    }
}

/// Occurrences of the hits with the texts `texts`.
spec fn places_total(hits: Seq<LabeledHit>, texts: Seq<Seq<char>>) -> nat
    decreases texts.len(),
{
    if texts.len() == 0 {
        0
    } else {
        places_total(hits, texts.drop_last()) + places(hits, texts.last()).len()
    }
}

proof fn lemma_places_push(hits: Seq<LabeledHit>, texts: Seq<Seq<char>>)
    requires
        hits.len() > 0,
        texts.no_duplicates(),
    ensures
        places_total(hits, texts) == places_total(hits.drop_last(), texts) + if texts.contains(
            hits.last().hit.span_text@,
        ) {
            1nat
        } else {
            0nat
        },
    decreases texts.len(),
{
    if texts.len() > 0 {
        let init = texts.drop_last();
        let t = hits.last().hit.span_text@;
        lemma_places_push(hits, init);
        if texts.last() == t {
            assert(texts[texts.len() - 1] == t);
            assert(!init.contains(t));
        } else {
            assert(texts.contains(t) <==> init.contains(t)) by {
                if texts.contains(t) {
                    let k = choose|k: int| 0 <= k < texts.len() && texts[k] == t;
                    assert(init[k] == t);
                }
                if init.contains(t) {
                    let k = choose|k: int| 0 <= k < init.len() && init[k] == t;
                    assert(texts[k] == t);
                }
            }
        }
    }
}

proof fn lemma_places_zero(texts: Seq<Seq<char>>)
    ensures
        places_total(Seq::empty(), texts) == 0,
    decreases texts.len(),
{
    if texts.len() > 0 {
        lemma_places_zero(texts.drop_last());
    }
}

proof fn lemma_places_all(hits: Seq<LabeledHit>, texts: Seq<Seq<char>>)
    requires
        texts.no_duplicates(),
        forall|i: int| 0 <= i < hits.len() ==> texts.contains((#[trigger] hits[i]).hit.span_text@),
    ensures
        places_total(hits, texts) == hits.len(),
    decreases hits.len(),
{
    if hits.len() == 0 {
        assert(hits =~= Seq::<LabeledHit>::empty());
        lemma_places_zero(texts);
    } else {
        let init = hits.drop_last();
        assert forall|i: int| 0 <= i < init.len() implies texts.contains(
            (#[trigger] init[i]).hit.span_text@,
        ) by {
            assert(init[i] == hits[i]);
        }
        lemma_places_all(init, texts);
        lemma_places_push(hits, texts);
        assert(texts.contains(hits[hits.len() - 1].hit.span_text@));
    }
}

proof fn lemma_total(
    hits: Seq<LabeledHit>,
    texts: Seq<Seq<char>>,
    groups: Seq<SearchSnippetGroup>,
)
    requires
        groups.len() == texts.len(),
        forall|i: int| 0 <= i < groups.len() ==> group_of(hits, texts[i], #[trigger] groups[i]),
    ensures
        occurrence_total(groups) == places_total(hits, texts),
    decreases groups.len(),
{
    if groups.len() > 0 {
        let g = groups.drop_last();
        let t = texts.drop_last();
        assert forall|i: int| 0 <= i < g.len() implies group_of(hits, t[i], #[trigger] g[i]) by {
            assert(g[i] == groups[i]);
        }
        lemma_total(hits, t, g);
        assert(group_of(hits, texts.last(), groups[groups.len() - 1]));
        assert(occurrence_views(groups.last().occurrences@).len()
            == groups.last().occurrences@.len());
    }
}

/// Grouping drops no occurrence: the groups of `hits` list as many
/// occurrences as there are hits, and different groups have different texts.
pub proof fn law_no_occurrence_dropped(
    hits: Seq<LabeledHit>,
    groups: Seq<SearchSnippetGroup>,
)
    requires
        groups.len() == distinct(texts_of(hits)).len(),
        forall|i: int|
            0 <= i < groups.len() ==> group_of(
                hits,
                distinct(texts_of(hits))[i],
                #[trigger] groups[i],
            ),
    ensures
        occurrence_total(groups) == hits.len(),
        distinct(texts_of(hits)).no_duplicates(),
{
    let texts = texts_of(hits);
    lemma_distinct_once(texts);
    lemma_distinct_contains(texts);
    assert forall|i: int| 0 <= i < hits.len() implies distinct(texts).contains(
        (#[trigger] hits[i]).hit.span_text@,
    ) by {
        assert(texts[i] == hits[i].hit.span_text@);
        assert(texts.contains(texts[i]));
    }
    lemma_places_all(hits, distinct(texts));
    lemma_total(hits, distinct(texts), groups);
}

/// Two hits are the same when they have the same conversation, field and span
/// text. The first of them is kept, and only it.
pub proof fn law_one_hit_for_each_text(hits: Seq<SearchHit>, i: int, j: int, k: int)
    ensures
        0 <= i < j < firsts(hits).len() ==> {
            ||| opt_view(firsts(hits)[i].conversation_id) != opt_view(
                firsts(hits)[j].conversation_id,
            )
            ||| firsts(hits)[i].field@ != firsts(hits)[j].field@
            ||| firsts(hits)[i].span_text@ != firsts(hits)[j].span_text@
        },
        0 <= k < hits.len() ==> exists|m: int|
            0 <= m < firsts(hits).len() && opt_view((#[trigger] firsts(hits)[m]).conversation_id)
                == opt_view(hits[k].conversation_id) && firsts(hits)[m].field@ == hits[k].field@
                && firsts(hits)[m].span_text@ == hits[k].span_text@,
        0 <= i < firsts(hits).len() ==> hits.contains(firsts(hits)[i]),
{
    law_unique_hits(hits);
    if 0 <= i < j < firsts(hits).len() {
        assert(hit_key(firsts(hits)[i]) != hit_key(firsts(hits)[j]));
    }
    if 0 <= k < hits.len() {
        assert(has_key(firsts(hits), hit_key(hits[k])));
        let m = choose|m: int|
            0 <= m < firsts(hits).len() && hit_key(#[trigger] firsts(hits)[m]) == hit_key(hits[k]);
        assert(opt_view(firsts(hits)[m].conversation_id) == opt_view(hits[k].conversation_id));
    }
}

/// Where the hit at `m` of a grouped run has its conversation in `ids`.
proof fn lemma_by_ids(hits: Seq<SearchHit>, ids: Seq<Option<Seq<char>>>, a: int, b: int) -> (r: (
    int,
    int,
))
    requires
        0 <= a <= b < by_ids(hits, ids).len(),
    ensures
        0 <= r.0 <= r.1 < ids.len(),
        ids[r.0] == opt_view(by_ids(hits, ids)[a].conversation_id),
        ids[r.1] == opt_view(by_ids(hits, ids)[b].conversation_id),
    decreases ids.len(),
{
    let init = ids.drop_last();
    let n = ids.len() - 1;
    let head = by_ids(hits, init);
    let tail = with_id(hits, ids.last());
    lemma_with_id(hits, ids.last());
    if b < head.len() {
        lemma_by_ids(hits, init, a, b)
    } else if a < head.len() {
        let p = lemma_by_ids(hits, init, a, a).0;
        assert(by_ids(hits, ids)[b] == tail[b - head.len()]);
        (p, n)
    } else {
        assert(by_ids(hits, ids)[a] == tail[a - head.len()]);
        assert(by_ids(hits, ids)[b] == tail[b - head.len()]);
        (n, n)
    }
}

proof fn lemma_with_id(hits: Seq<SearchHit>, id: Option<Seq<char>>)
    ensures
        forall|k: int|
            0 <= k < with_id(hits, id).len() ==> opt_view(
                (#[trigger] with_id(hits, id)[k]).conversation_id,
            ) == id,
    decreases hits.len(),
{
    if hits.len() > 0 {
        lemma_with_id(hits.drop_last(), id);
    }
}

proof fn lemma_distinct<A>(s: Seq<A>)
    ensures
        distinct(s).no_duplicates(),
    decreases s.len(),
{
    if s.len() > 0 {
        lemma_distinct(s.drop_last());
    }
}

/// The hits of one conversation stand together: between two of them stands no
/// hit of another.
pub proof fn law_conversations_stand_together(hits: Seq<SearchHit>, a: int, b: int, c: int)
    requires
        0 <= a < b < c < by_conversation(hits).len(),
        opt_view(by_conversation(hits)[a].conversation_id) == opt_view(
            by_conversation(hits)[c].conversation_id,
        ),
    ensures
        opt_view(by_conversation(hits)[b].conversation_id) == opt_view(
            by_conversation(hits)[a].conversation_id,
        ),
{
    let ids = distinct(ids_of(hits));
    lemma_distinct(ids_of(hits));
    let (p, q) = lemma_by_ids(hits, ids, a, b);
    let (s, t) = lemma_by_ids(hits, ids, b, c);
    assert(ids[p] == ids[t]);
    assert(p == t);
    assert(ids[q] == ids[s]);
    assert(q == s);
}

/// A group lists every place of its text: archive, conversation and field of
/// each hit that has it, and of no other.
pub proof fn law_group_lists_every_place(
    hits: Seq<LabeledHit>,
    text: Seq<char>,
    g: SearchSnippetGroup,
    k: int,
)
    requires
        group_of(hits, text, g),
        0 <= k < hits.len(),
        hits[k].hit.span_text@ == text,
    ensures
        exists|m: int|
            0 <= m < g.occurrences@.len() && opt_view((#[trigger] g.occurrences@[m]).archive)
                == opt_str(hits[k].archive) && opt_view(g.occurrences@[m].conversation_id)
                == opt_view(hits[k].hit.conversation_id) && g.occurrences@[m].field@
                == hits[k].hit.field@,
        forall|m: int|
            0 <= m < g.occurrences@.len() ==> exists|j: int|
                0 <= j < hits.len() && (#[trigger] hits[j]).hit.span_text@ == text && opt_view(
                    (#[trigger] g.occurrences@[m]).archive,
                ) == opt_str(hits[j].archive) && opt_view(g.occurrences@[m].conversation_id)
                    == opt_view(hits[j].hit.conversation_id) && g.occurrences@[m].field@
                    == hits[j].hit.field@,
{
    let all = places(hits, text);
    let o = g.occurrences@;
    assert(o.len() == occurrence_views(o).len());
    lemma_places(hits, text);
    let want = (
        opt_str(hits[k].archive),
        opt_view(hits[k].hit.conversation_id),
        hits[k].hit.field@,
    );
    assert(all.contains(want));
    let m = choose|m: int| 0 <= m < all.len() && all[m] == want;
    assert(occurrence_views(o)[m] == occurrence_view(o[m]));
    assert forall|m: int| 0 <= m < o.len() implies exists|j: int|
        0 <= j < hits.len() && (#[trigger] hits[j]).hit.span_text@ == text && opt_view(
            (#[trigger] o[m]).archive,
        ) == opt_str(hits[j].archive) && opt_view(o[m].conversation_id) == opt_view(
            hits[j].hit.conversation_id,
        ) && o[m].field@ == hits[j].hit.field@ by {
        assert(occurrence_views(o)[m] == occurrence_view(o[m]));
        assert(all[m] == occurrence_view(o[m]));
        assert(stands_at(hits, text, all[m]));
        let j = choose|j: int|
            0 <= j < hits.len() && (#[trigger] hits[j]).hit.span_text@ == text && all[m] == (
                opt_str(hits[j].archive),
                opt_view(hits[j].hit.conversation_id),
                hits[j].hit.field@,
            );
        assert(hits[j].hit.span_text@ == text);
    }
}

/// A hit with this text stands at this place.
spec fn stands_at(
    hits: Seq<LabeledHit>,
    text: Seq<char>,
    p: (Option<Seq<char>>, Option<Seq<char>>, Seq<char>),
) -> bool {
    exists|j: int|
        0 <= j < hits.len() && (#[trigger] hits[j]).hit.span_text@ == text && p == (
            opt_str(hits[j].archive),
            opt_view(hits[j].hit.conversation_id),
            hits[j].hit.field@,
        )
}

proof fn lemma_places(hits: Seq<LabeledHit>, text: Seq<char>)
    ensures
        forall|k: int|
            0 <= k < hits.len() && (#[trigger] hits[k]).hit.span_text@ == text ==> places(
                hits,
                text,
            ).contains(
                (
                    opt_str(hits[k].archive),
                    opt_view(hits[k].hit.conversation_id),
                    hits[k].hit.field@,
                ),
            ),
        forall|m: int|
            0 <= m < places(hits, text).len() ==> stands_at(
                hits,
                text,
                #[trigger] places(hits, text)[m],
            ),
    decreases hits.len(),
{
    if hits.len() > 0 {
        let n = hits.len() - 1;
        let init = hits.drop_last();
        let head = places(init, text);
        let all = places(hits, text);
        lemma_places(init, text);
        assert forall|k: int|
            0 <= k < hits.len() && (#[trigger] hits[k]).hit.span_text@ == text implies all.contains(
            (opt_str(hits[k].archive), opt_view(hits[k].hit.conversation_id), hits[k].hit.field@),
        ) by {
            let x = (
                opt_str(hits[k].archive),
                opt_view(hits[k].hit.conversation_id),
                hits[k].hit.field@,
            );
            if k < n {
                assert(init[k] == hits[k]);
                assert(head.contains(x));
                let m = choose|m: int| 0 <= m < head.len() && head[m] == x;
                assert(all[m] == x);
            } else {
                assert(all[head.len() as int] == x);
            }
        }
        assert forall|m: int| 0 <= m < all.len() implies stands_at(
            hits,
            text,
            #[trigger] all[m],
        ) by {
            if m < head.len() {
                assert(all[m] == head[m]);
                assert(stands_at(init, text, head[m]));
                let j = choose|j: int|
                    0 <= j < init.len() && (#[trigger] init[j]).hit.span_text@ == text && head[m]
                        == (
                        opt_str(init[j].archive),
                        opt_view(init[j].hit.conversation_id),
                        init[j].hit.field@,
                    );
                assert(hits[j] == init[j]);
            } else {
                assert(hits[n].hit.span_text@ == text);
            }
        }
    }
}

/// A group shows the snippet and the field of the first hit with its text.
pub proof fn law_group_shows_the_first_hit(
    hits: Seq<LabeledHit>,
    text: Seq<char>,
    g: SearchSnippetGroup,
    k: int,
)
    requires
        group_of(hits, text, g),
        0 <= k < hits.len(),
        hits[k].hit.span_text@ == text,
        forall|j: int| 0 <= j < k ==> (#[trigger] hits[j]).hit.span_text@ != text,
    ensures
        g.snippet@ == hits[k].hit.snippet@,
        g.field@ == hits[k].hit.field@,
{
    lemma_first_with(hits, text, k);
}

proof fn lemma_first_with(hits: Seq<LabeledHit>, text: Seq<char>, k: int)
    requires
        0 <= k < hits.len(),
        hits[k].hit.span_text@ == text,
        forall|j: int| 0 <= j < k ==> (#[trigger] hits[j]).hit.span_text@ != text,
    ensures
        first_with(hits, text) == *hits[k].hit,
    decreases hits.len(),
{
    let init = hits.drop_last();
    let n = hits.len() - 1;
    let t = texts_of(init);
    if k < n {
        assert(t[k] == text);
        assert(forall|j: int| 0 <= j < init.len() ==> #[trigger] init[j] == hits[j]);
        lemma_first_with(init, text, k);
    } else {
        if t.contains(text) {
            let j = choose|j: int| 0 <= j < t.len() && t[j] == text;
            assert(hits[j].hit.span_text@ == text);
        }
    }
}

/// How many groups are shown: all of them without a limit, else no more than
/// the limit.
pub proof fn law_shown_groups(n: nat, max_count: nat)
    ensures
        print_cap(n, 0) == n,
        max_count > 0 ==> print_cap(n, max_count) == if n < max_count {
            n
        } else {
            max_count
        },
{
}

/// The row of a place names its archive, where there is one, its conversation,
/// a dash where there is none, and its field.
pub proof fn law_place_row(o: SearchOccurrence)
    ensures
        o.archive is None && o.conversation_id is None ==> occurrence_text(o)
            == "conversation -  field "@ + o.field@,
        o.archive is None && o.conversation_id is Some ==> occurrence_text(o) == "conversation "@
            + o.conversation_id->0@ + "  field "@ + o.field@,
        o.archive is Some && o.conversation_id is Some ==> occurrence_text(o) == "archive "@
            + o.archive->0@ + "  conversation "@ + o.conversation_id->0@ + "  field "@ + o.field@,
{
    reveal_strlit("conversation ");
    reveal_strlit("-");
    reveal_strlit("  field ");
    reveal_strlit("conversation -  field ");
    assert("conversation "@ + "-"@ + "  field "@ =~= "conversation -  field "@);
}

/// What is not shown is told: the groups beyond the limit and the duplicates.
/// Nothing is told where nothing is left out.
pub proof fn law_report_tells_the_rest(
    groups: Seq<SearchSnippetGroup>,
    max_count: nat,
    omitted: nat,
)
    ensures
        omitted == 0 && (max_count == 0 || groups.len() <= max_count) ==> report_text(
            groups,
            max_count,
            omitted,
        ) == groups_text(groups),
        omitted > 0 && (max_count == 0 || groups.len() <= max_count) ==> report_text(
            groups,
            max_count,
            omitted,
        ) == groups_text(groups) + "  ("@ + decimal(omitted) + " duplicate hits omitted)\n"@,
        omitted == 0 && 0 < max_count && max_count + 1 == groups.len() ==> report_text(
            groups,
            max_count,
            omitted,
        ) == groups_text(groups.take(max_count as int))
            + "  (1 more snippet group not shown)\n"@,
        omitted == 0 && 0 < max_count && max_count + 1 < groups.len() ==> report_text(
            groups,
            max_count,
            omitted,
        ) == groups_text(groups.take(max_count as int)) + "  ("@ + decimal(
            (groups.len() - max_count) as nat,
        ) + " more snippet groups not shown)\n"@,
{
    assert(groups.take(groups.len() as int) =~= groups);
    reveal_strlit("  (");
    reveal_strlit(")\n");
    reveal_strlit(" duplicate hits omitted");
    reveal_strlit(" duplicate hits omitted)\n");
    reveal_strlit("1 more snippet group not shown");
    reveal_strlit("  (1 more snippet group not shown)\n");
    reveal_strlit(" more snippet groups not shown");
    reveal_strlit(" more snippet groups not shown)\n");
    assert(" duplicate hits omitted"@ + ")\n"@ =~= " duplicate hits omitted)\n"@);
    assert(" more snippet groups not shown"@ + ")\n"@ =~= " more snippet groups not shown)\n"@);
    assert("  ("@ + "1 more snippet group not shown"@ + ")\n"@
        =~= "  (1 more snippet group not shown)\n"@);
    let cap = print_cap(groups.len(), max_count);
    let shown = groups_text(groups.take(cap as int));
    let rest = (groups.len() - cap) as nat;
    let (d, m) = (decimal(omitted), decimal(rest));
    assert(shown + "  ("@ + (d + " duplicate hits omitted"@) + ")\n"@ =~= shown + "  ("@ + d + (
    " duplicate hits omitted"@ + ")\n"@));
    assert(shown + "  ("@ + (m + " more snippet groups not shown"@) + ")\n"@ =~= shown + "  ("@ + m
        + (" more snippet groups not shown"@ + ")\n"@));
    assert(shown + "  ("@ + "1 more snippet group not shown"@ + ")\n"@ =~= shown + ("  ("@
        + "1 more snippet group not shown"@ + ")\n"@));
}

} // verus!
