//! Named values: lists of pairs kept in key order.
use vstd::prelude::*;

use crate::order::{ascending, before, law_string_order};

verus! {

/// The names of pairs.
pub open spec fn keys<V>(fs: Seq<(Seq<char>, V)>) -> Seq<Seq<char>> {
    Seq::new(fs.len(), |i: int| fs[i].0)
}

/// The value under `key`.
pub open spec fn lookup<V>(fs: Seq<(Seq<char>, V)>, key: Seq<char>) -> Option<V>
    decreases fs.len(),
{
    if fs.len() == 0 {
        None
    } else if fs.last().0 == key {
        Some(fs.last().1)
    } else {
        lookup(fs.drop_last(), key)
    }
}

/// `fs` with `v` under `key`: in the place of an earlier value, else in key
/// order.
pub open spec fn placed<V>(fs: Seq<(Seq<char>, V)>, key: Seq<char>, v: V) -> Seq<(Seq<char>, V)>
    decreases fs.len(),
{
    if fs.len() == 0 {
        seq![(key, v)]
    } else if fs.last().0 == key {
        fs.drop_last().push((key, v))
    } else if before(fs.last().0, key) {
        fs.push((key, v))
    } else {
        placed(fs.drop_last(), key, v).push(fs.last())
    }
}

/// `fs` with `v` under `key`, unless there is a value already.
pub open spec fn kept<V>(fs: Seq<(Seq<char>, V)>, key: Seq<char>, v: V) -> Seq<(Seq<char>, V)> {
    if lookup(fs, key) is Some {
        fs
    } else {
        placed(fs, key, v)
    }
}

/// `fs` without the value under `key`.
pub open spec fn without<V>(fs: Seq<(Seq<char>, V)>, key: Seq<char>) -> Seq<(Seq<char>, V)>
    decreases fs.len(),
{
    if fs.len() == 0 {
        fs
    } else if fs.last().0 == key {
        without(fs.drop_last(), key)
    } else {
        without(fs.drop_last(), key).push(fs.last())
    }
}

/// `base` with the values of `other`. Where both have a value, `other_wins`
/// decides.
pub open spec fn union<V>(
    base: Seq<(Seq<char>, V)>,
    other: Seq<(Seq<char>, V)>,
    other_wins: bool,
) -> Seq<(Seq<char>, V)>
    decreases other.len(),
{
    if other.len() == 0 {
        base
    } else {
        let head = union(base, other.drop_last(), other_wins);
        if other_wins {
            placed(head, other.last().0, other.last().1)
        } else {
            kept(head, other.last().0, other.last().1)
        }
    }
}

/// A value that is put under a key is found there, and other keys keep their
/// values.
pub proof fn law_placed_is_found<V>(
    fs: Seq<(Seq<char>, V)>,
    key: Seq<char>,
    v: V,
    other: Seq<char>,
)
    ensures
        lookup(placed(fs, key, v), other) == if other == key {
            Some(v)
        } else {
            lookup(fs, other)
        },
    decreases fs.len(),
{
    let p = placed(fs, key, v);
    if fs.len() == 0 {
        assert(p.drop_last() =~= fs);
    } else if fs.last().0 == key {
        assert(p.drop_last() =~= fs.drop_last());
    } else if before(fs.last().0, key) {
        assert(p.drop_last() =~= fs);
    } else {
        law_placed_is_found(fs.drop_last(), key, v, other);
        assert(p.drop_last() =~= placed(fs.drop_last(), key, v));
    }
}

/// A value that is taken away is not found, and other keys keep their values.
pub proof fn law_without_is_gone<V>(fs: Seq<(Seq<char>, V)>, key: Seq<char>, other: Seq<char>)
    ensures
        lookup(without(fs, key), other) == if other == key {
            None
        } else {
            lookup(fs, other)
        },
    decreases fs.len(),
{
    if fs.len() > 0 {
        law_without_is_gone(fs.drop_last(), key, other);
        if fs.last().0 != key {
            let w = without(fs.drop_last(), key);
            assert(w.push(fs.last()).drop_last() =~= w);
        }
    }
}

/// A union has every value of either side. Where both have one, the winner's
/// stays.
pub proof fn law_union_loses_nothing<V>(
    base: Seq<(Seq<char>, V)>,
    other: Seq<(Seq<char>, V)>,
    other_wins: bool,
    key: Seq<char>,
)
    requires
        ascending(keys(other)),
    ensures
        lookup(union(base, other, other_wins), key) == match (lookup(base, key), lookup(other, key)) {
            (Some(a), Some(b)) => if other_wins {
                Some(b)
            } else {
                Some(a)
            },
            (Some(a), None) => Some(a),
            (None, Some(b)) => Some(b),
            (None, None) => None,
        },
    decreases other.len(),
{
    if other.len() > 0 {
        let init = other.drop_last();
        let last = other.last();
        assert(keys(init) =~= keys(other).drop_last());
        assert(ascending(keys(init))) by {
            assert forall|i: int, j: int| 0 <= i < j < keys(init).len() implies before(
                #[trigger] keys(init)[i],
                #[trigger] keys(init)[j],
            ) by {
                assert(before(keys(other)[i], keys(other)[j]));
            }
        }
        law_union_loses_nothing(base, init, other_wins, key);
        law_union_loses_nothing(base, init, other_wins, last.0);
        let head = union(base, init, other_wins);
        law_placed_is_found(head, last.0, last.1, key);
        lemma_last_is_new(other);
    }
}

/// In ascending pairs the last name does not occur before.
proof fn lemma_last_is_new<V>(fs: Seq<(Seq<char>, V)>)
    requires
        fs.len() > 0,
        ascending(keys(fs)),
    ensures
        lookup(fs.drop_last(), fs.last().0) is None,
{
    let init = fs.drop_last();
    let last = fs.last().0;
    assert forall|i: int| 0 <= i < init.len() implies (#[trigger] init[i]).0 != last by {
        assert(before(keys(fs)[i], keys(fs)[fs.len() - 1]));
        law_string_order(last, last, last);
    }
    lemma_not_found(init, last);
}

/// A name that no pair has is not found.
proof fn lemma_not_found<V>(fs: Seq<(Seq<char>, V)>, key: Seq<char>)
    requires
        forall|i: int| 0 <= i < fs.len() ==> (#[trigger] fs[i]).0 != key,
    ensures
        lookup(fs, key) is None,
    decreases fs.len(),
{
    if fs.len() > 0 {
        assert(fs[fs.len() - 1].0 != key);
        assert forall|i: int| 0 <= i < fs.drop_last().len() implies (#[trigger] fs.drop_last()[i]).0
            != key by {
            assert(fs[i].0 != key);
        }
        lemma_not_found(fs.drop_last(), key);
    }
}

/// Putting a value keeps the names ascending.
pub proof fn law_placed_stays_ascending<V>(fs: Seq<(Seq<char>, V)>, key: Seq<char>, v: V)
    requires
        ascending(keys(fs)),
    ensures
        ascending(keys(placed(fs, key, v))),
        forall|k: int|
            0 <= k < placed(fs, key, v).len() ==> (#[trigger] placed(fs, key, v)[k]).0 == key
                || keys(fs).contains(placed(fs, key, v)[k].0),
    decreases fs.len(),
{
    let p = placed(fs, key, v);
    assert forall|k: int| 0 <= k < fs.len() implies keys(fs).contains((#[trigger] fs[k]).0) by {
        assert(keys(fs)[k] == fs[k].0);
    }
    if fs.len() == 0 {
    } else if fs.last().0 == key {
        assert(keys(p) =~= keys(fs));
        assert forall|k: int| 0 <= k < p.len() implies (#[trigger] p[k]).0 == key || keys(
            fs,
        ).contains(p[k].0) by {
            assert(p[k].0 == fs[k].0);
        }
    } else if before(fs.last().0, key) {
        assert forall|i: int, j: int| 0 <= i < j < keys(p).len() implies before(
            #[trigger] keys(p)[i],
            #[trigger] keys(p)[j],
        ) by {
            if j < fs.len() {
                assert(before(keys(fs)[i], keys(fs)[j]));
            } else if i < fs.len() - 1 {
                assert(before(keys(fs)[i], keys(fs)[fs.len() - 1]));
                law_string_order(keys(fs)[i], keys(fs)[fs.len() - 1], key);
            }
        }
        assert forall|k: int| 0 <= k < p.len() implies (#[trigger] p[k]).0 == key || keys(
            fs,
        ).contains(p[k].0) by {
            if k < fs.len() {
                assert(p[k] == fs[k]);
            }
        }
    } else {
        let init = fs.drop_last();
        let q = placed(init, key, v);
        assert(keys(init) =~= keys(fs).drop_last());
        assert forall|i: int, j: int| 0 <= i < j < keys(init).len() implies before(
            #[trigger] keys(init)[i],
            #[trigger] keys(init)[j],
        ) by {
            assert(before(keys(fs)[i], keys(fs)[j]));
        }
        law_placed_stays_ascending(init, key, v);
        law_string_order(fs.last().0, key, fs.last().0);
        assert forall|i: int, j: int| 0 <= i < j < keys(p).len() implies before(
            #[trigger] keys(p)[i],
            #[trigger] keys(p)[j],
        ) by {
            if j < q.len() {
                assert(before(keys(q)[i], keys(q)[j]));
            } else {
                assert(p[i] == q[i]);
                if q[i].0 != key {
                    let k = choose|k: int| 0 <= k < keys(init).len() && keys(init)[k] == q[i].0;
                    assert(before(keys(fs)[k], keys(fs)[fs.len() - 1]));
                }
            }
        }
        assert forall|k: int| 0 <= k < p.len() implies (#[trigger] p[k]).0 == key || keys(
            fs,
        ).contains(p[k].0) by {
            if k < q.len() {
                assert(p[k] == q[k]);
                if q[k].0 != key {
                    let m = choose|m: int| 0 <= m < keys(init).len() && keys(init)[m] == q[k].0;
                    assert(keys(fs)[m] == q[k].0);
                }
            } else {
                assert(p[k] == fs[fs.len() - 1]);
            }
        }
    }
}

/// Pairs that are there already add nothing to a union.
pub proof fn law_union_with_itself<V>(fs: Seq<(Seq<char>, V)>, n: nat)
    requires
        n <= fs.len(),
    ensures
        union(fs, fs.take(n as int), false) == fs,
    decreases n,
{
    if n > 0 {
        law_union_with_itself(fs, (n - 1) as nat);
        assert(fs.take(n as int).drop_last() =~= fs.take(n - 1));
        lemma_has_own_key(fs, n - 1);
    }
}

proof fn lemma_has_own_key<V>(fs: Seq<(Seq<char>, V)>, i: int)
    requires
        0 <= i < fs.len(),
    ensures
        lookup(fs, fs[i].0) is Some,
    decreases fs.len(),
{
    if i < fs.len() - 1 {
        lemma_has_own_key(fs.drop_last(), i);
    }
}

} // verus!
