//! Exports that come twice are read once.
use vstd::prelude::*;

use crate::codec::root_of;
use crate::hash::{hash_bytes, Digest};
use crate::infer::InferredScope;
use crate::merge::{reversed, same_digest};
use crate::order::{before, is_before, law_string_order, sort_order, sorted_positions};
use crate::text::{same_str, views};
use crate::zip::ZipKind;

verus! {

/// The contents of an export, as far as they tell it from others.
pub struct Payload {
    pub kind: ZipKind,
    pub size: u64,
    pub digest: Digest,
    pub is_zip: bool,
}

/// The same export.
pub open spec fn same_payload(a: Payload, b: Payload) -> bool {
    a.kind == b.kind && a.size == b.size && a.digest.root@ == b.digest.root@
}

fn is_same_payload(a: &Payload, b: &Payload) -> (r: bool)
    ensures
        r == same_payload(*a, *b),
{
    a.kind == b.kind && a.size == b.size && same_digest(&a.digest, &b.digest)
}

/// The first source with the same export as source `i`, among those before
/// `n`, or -1.
pub open spec fn first_same(v: Seq<Option<Payload>>, i: int, n: int) -> int
    decreases n,
{
    if n <= 0 {
        -1
    } else {
        let p = first_same(v, i, n - 1);
        if p >= 0 {
            p
        } else if v[i] is Some && v[n - 1] is Some && same_payload(v[n - 1]->0, v[i]->0) {
            n - 1
        } else {
            -1
        }
    }
}

/// The source of which source `i` is a copy. Two unpacked exports are both
/// read: only a copy with a zip on one side is left out.
pub open spec fn copy_of(v: Seq<Option<Payload>>, i: int) -> int {
    let p = first_same(v, i, i);
    if p >= 0 && (v[i]->0.is_zip || v[p]->0.is_zip) {
        p
    } else {
        -1
    }
}

/// For each source the earlier one of which it is a copy. A source whose
/// contents are not known is never a copy.
pub fn find_copies(v: &Vec<Option<Payload>>) -> (r: Vec<Option<usize>>)
    ensures
        r@.len() == v@.len(),
        forall|i: int|
            0 <= i < r@.len() ==> match #[trigger] r@[i] {
                Some(p) => p < i && copy_of(v@, i) == p,
                None => copy_of(v@, i) == -1,
            },
{
    let mut out: Vec<Option<usize>> = Vec::new();
    let mut i: usize = 0;
    while i < v.len()
        invariant
            i <= v@.len(),
            out@.len() == i,
            forall|k: int|
                0 <= k < i ==> match #[trigger] out@[k] {
                    Some(p) => p < k && copy_of(v@, k) == p,
                    None => copy_of(v@, k) == -1,
                },
        decreases v.len() - i,
    {
        let mut found: Option<usize> = None;
        let mut n: usize = 0;
        while n < i
            invariant
                n <= i < v@.len(),
                match found {
                    Some(p) => p < n && first_same(v@, i as int, n as int) == p && v@[i as int]
                        is Some && v@[p as int] is Some,
                    None => first_same(v@, i as int, n as int) == -1,
                },
            decreases i - n,
        {
            if found.is_none() {
                if let Some(a) = &v[n] {
                    if let Some(b) = &v[i] {
                        if is_same_payload(a, b) {
                            found = Some(n);
                        }
                    }
                }
            }
            n = n + 1;
        }
        let copy = match found {
            Some(p) => {
                let a_zip = match &v[p] {
                    Some(a) => a.is_zip,
                    None => false,
                };
                let b_zip = match &v[i] {
                    Some(b) => b.is_zip,
                    None => false,
                };
                if a_zip || b_zip {
                    Some(p)
                } else {
                    None
                }
            },
            None => None,
        };
        out.push(copy);
        i = i + 1;
    }
    out
}

/// Of exports with the same contents the first is always read.
pub proof fn law_first_copy_is_read(v: Seq<Option<Payload>>, i: int)
    requires
        0 <= i < v.len(),
        copy_of(v, i) >= 0,
    ensures
        copy_of(v, i) < i,
        same_payload(v[copy_of(v, i)]->0, v[i]->0),
        copy_of(v, copy_of(v, i)) == -1,
{
    lemma_first_same(v, i, i);
    let p = copy_of(v, i);
    lemma_first_same(v, p, p);
    if first_same(v, p, p) >= 0 {
        let q = first_same(v, p, p);
        assert(same_payload(v[q]->0, v[i]->0));
        lemma_no_earlier(v, i, i, q);
    }
}

proof fn lemma_first_same(v: Seq<Option<Payload>>, i: int, n: int)
    requires
        0 <= n <= i < v.len(),
    ensures
        -1 <= first_same(v, i, n) < n || first_same(v, i, n) == -1,
        first_same(v, i, n) >= 0 ==> v[i] is Some && v[first_same(v, i, n)] is Some && same_payload(
            v[first_same(v, i, n)]->0,
            v[i]->0,
        ),
    decreases n,
{
    if n > 0 {
        lemma_first_same(v, i, n - 1);
    }
}

proof fn lemma_no_earlier(v: Seq<Option<Payload>>, i: int, n: int, q: int)
    requires
        0 <= q < n <= i < v.len(),
        v[i] is Some,
        v[q] is Some,
        same_payload(v[q]->0, v[i]->0),
    ensures
        0 <= first_same(v, i, n) <= q,
    decreases n,
{
    if n - 1 > q {
        lemma_no_earlier(v, i, n - 1, q);
    } else {
        lemma_first_same(v, i, n - 1);
    }
}

/// Which zips have to be hashed: those of a size that comes more than once.
pub fn sizes_that_repeat(sizes: &Vec<Option<u64>>) -> (r: Vec<bool>)
    ensures
        r@.len() == sizes@.len(),
        forall|i: int|
            0 <= i < r@.len() ==> #[trigger] r@[i] == (sizes@[i] is Some && exists|j: int|
                0 <= j < sizes@.len() && j != i && #[trigger] sizes@[j] == sizes@[i]),
{
    let mut out: Vec<bool> = Vec::new();
    let mut i: usize = 0;
    while i < sizes.len()
        invariant
            i <= sizes@.len(),
            out@.len() == i,
            forall|k: int|
                0 <= k < i ==> #[trigger] out@[k] == (sizes@[k] is Some && exists|j: int|
                    0 <= j < sizes@.len() && j != k && #[trigger] sizes@[j] == sizes@[k]),
        decreases sizes.len() - i,
    {
        let mut again = false;
        let mut j: usize = 0;
        while j < sizes.len()
            invariant
                i < sizes@.len(),
                j <= sizes@.len(),
                again == (sizes@[i as int] is Some && exists|k: int|
                    0 <= k < j && k != i && #[trigger] sizes@[k] == sizes@[i as int]),
            decreases sizes.len() - j,
        {
            if j != i {
                if let Some(a) = sizes[i] {
                    if let Some(b) = sizes[j] {
                        if a == b {
                            proof {
                                assert(sizes@[j as int] == sizes@[i as int]);
                            }
                            again = true;
                        }
                    }
                }
            }
            j = j + 1;
        }
        out.push(again);
        i = i + 1;
    }
    out
}

/// The bytes that stand for the conversation files of an export: each name,
/// a zero byte, and the digest.
pub open spec fn parts_bytes(names: Seq<String>, digests: Seq<Digest>, order: Seq<usize>) -> Seq<u8>
    decreases order.len(),
{
    if order.len() == 0 {
        Seq::empty()
    } else {
        let k = order.last() as int;
        parts_bytes(names, digests, order.drop_last()) + vstd::utf8::encode_utf8(names[k]@) + seq![
            0u8,
        ] + digests[k].root@
    }
}

/// The digest of the conversation files of an export, in the order of their
/// names.
pub fn chatgpt_payload_digest(names: &Vec<String>, digests: &Vec<Digest>) -> (r: Digest)
    requires
        names@.len() == digests@.len(),
    ensures
        exists|p: Seq<usize>| #[trigger]
            sorted_positions(names@, 0, names@.len() as int, p) && r.root@ == root_of(
                parts_bytes(names@, digests@, p),
            ),
{
    let order = sort_order(names);
    let ghost p = order@;
    let mut acc: Vec<u8> = Vec::new();
    let mut i: usize = 0;
    proof {
        assert(p.take(0) =~= Seq::<usize>::empty());
    }
    while i < order.len()
        invariant
            i <= order@.len(),
            p == order@,
            names@.len() == digests@.len(),
            sorted_positions(names@, 0, names@.len() as int, p),
            acc@ == parts_bytes(names@, digests@, p.take(i as int)),
        decreases order.len() - i,
    {
        let k = order[i];
        proof {
            assert(p.contains(p[i as int]));
            assert(p.take(i + 1).drop_last() =~= p.take(i as int));
        }
        acc.extend_from_slice(names[k].as_str().as_bytes());
        acc.push(0);
        acc.extend_from_slice(&digests[k].root);
        proof {
            assert(acc@ =~= parts_bytes(names@, digests@, p.take(i + 1)));
        }
        i = i + 1;
    }
    proof {
        assert(p.take(p.len() as int) =~= p);
    }
    hash_bytes(acc.as_slice())
}

/// The inputs of one archive of a home scan.
pub struct HomeGroup {
    pub service: String,
    pub account: String,
    pub paths: Vec<String>,
}

/// What a group holds.
#[verifier::ext_equal]
pub struct GroupView {
    pub service: Seq<char>,
    pub account: Seq<char>,
    pub paths: Seq<Seq<char>>,
}

impl View for HomeGroup {
    type V = GroupView;

    open spec fn view(&self) -> GroupView {
        GroupView { service: self.service@, account: self.account@, paths: views(self.paths@) }
    }
}

/// What groups hold, in order.
pub open spec fn group_views(v: Seq<HomeGroup>) -> Seq<GroupView> {
    Seq::new(v.len(), |i: int| v[i]@)
}

/// A scope comes before another: by service, then by account.
pub open spec fn scope_before(a: (Seq<char>, Seq<char>), b: (Seq<char>, Seq<char>)) -> bool {
    before(a.0, b.0) || (a.0 == b.0 && before(a.1, b.1))
}

/// The groups with one more path: in the group of its scope, else in a new
/// group in scope order.
pub open spec fn grouped_with(
    v: Seq<GroupView>,
    scope: (Seq<char>, Seq<char>),
    path: Seq<char>,
) -> Seq<GroupView>
    decreases v.len(),
{
    let fresh = GroupView { service: scope.0, account: scope.1, paths: seq![path] };
    if v.len() == 0 {
        seq![fresh]
    } else {
        let last = v.last();
        let key = (last.service, last.account);
        if key == scope {
            v.drop_last().push(GroupView { paths: last.paths.push(path), ..last })
        } else if scope_before(key, scope) {
            v.push(fresh)
        } else {
            grouped_with(v.drop_last(), scope, path).push(last)
        }
    }
}

/// The groups of paths with their scopes, in scope order.
pub open spec fn grouped(paths: Seq<Seq<char>>, scopes: Seq<(Seq<char>, Seq<char>)>) -> Seq<
    GroupView,
>
    decreases paths.len(),
{
    if paths.len() == 0 || scopes.len() == 0 {
        Seq::empty()
    } else {
        grouped_with(
            grouped(paths.drop_last(), scopes.drop_last()),
            scopes.last(),
            paths.last(),
        )
    }
}

/// Puts a path in the group of its scope.
pub fn add_to_groups(v: &mut Vec<HomeGroup>, scope: InferredScope, path: String)
    ensures
        group_views(final(v)@) == grouped_with(group_views(old(v)@), scope@, path@),
{
    let ghost all = group_views(v@);
    let ghost want = grouped_with(all, scope@, path@);
    let mut i: usize = v.len();
    proof {
        assert(all.take(all.len() as int) =~= all);
        assert(all.skip(all.len() as int) =~= Seq::<GroupView>::empty());
        assert(want + all.skip(all.len() as int) =~= want);
    }
    while i > 0
        invariant
            i <= v@.len(),
            v@ == old(v)@,
            all == group_views(v@),
            want == grouped_with(all.take(i as int), scope@, path@) + all.skip(i as int),
            want == grouped_with(group_views(old(v)@), scope@, path@),
        decreases i,
    {
        proof {
            assert(all.take(i as int).drop_last() =~= all.take(i - 1));
            assert(all.take(i as int).last() == all[i - 1]);
        }
        let same_service = same_str(&v[i - 1].service, &scope.service);
        if same_service && same_str(&v[i - 1].account, &scope.account) {
            let ghost k = i - 1;
            let ghost held = all[k];
            v[i - 1].paths.push(path);
            proof {
                assert(v@[k]@.paths =~= held.paths.push(path@));
                let now = GroupView { paths: held.paths.push(path@), ..held };
                assert(group_views(v@) =~= all.update(k, now));
                assert(all.take(k).push(now) + all.skip(i as int) =~= all.update(k, now));
            }
            return;
        }
        if is_before(&v[i - 1].service, &scope.service) || (same_service && is_before(
            &v[i - 1].account,
            &scope.account,
        )) {
            insert_group(v, i, scope, path);
            return;
        }
        proof {
            let w = grouped_with(all.take(i - 1), scope@, path@);
            assert(w.push(all[i - 1]) + all.skip(i as int) =~= w + all.skip(i - 1));
        }
        i = i - 1;
    }
    proof {
        assert(all.take(0) =~= Seq::<GroupView>::empty());
    }
    insert_group(v, 0, scope, path);
}

fn insert_group(v: &mut Vec<HomeGroup>, at: usize, scope: InferredScope, path: String)
    requires
        at <= old(v)@.len(),
    ensures
        group_views(final(v)@) == group_views(old(v)@).take(at as int).push(
            (GroupView { service: scope.service@, account: scope.account@, paths: seq![path@] }),
        ) + group_views(old(v)@).skip(at as int),
        at == 0 ==> group_views(final(v)@) == seq![
            (GroupView { service: scope.service@, account: scope.account@, paths: seq![path@] }),
        ] + group_views(old(v)@).skip(0),
{
    let ghost all = group_views(v@);
    let mut paths: Vec<String> = Vec::new();
    paths.push(path);
    let g = HomeGroup { service: scope.service, account: scope.account, paths };
    proof {
        assert(g@.paths =~= seq![path@]);
    }
    v.insert(at, g);
    proof {
        assert(group_views(v@) =~= all.take(at as int).push(g@) + all.skip(at as int));
        if at == 0 {
            assert(all.take(0).push(g@) =~= seq![g@]);
        }
    }
}

/// The groups of paths with their scopes, in scope order.
pub fn group_home_exports(paths: Vec<String>, scopes: Vec<InferredScope>) -> (r: Vec<HomeGroup>)
    requires
        paths@.len() == scopes@.len(),
    ensures
        group_views(r@) == grouped(views(paths@), scope_views(scopes@)),
{
    let ghost ps = views(paths@);
    let ghost ss = scope_views(scopes@);
    let ghost given_paths = paths@;
    let ghost given_scopes = scopes@;
    let total: usize = paths.len();
    let mut rest = reversed(paths);
    let mut more = reversed(scopes);
    let mut out: Vec<HomeGroup> = Vec::new();
    let mut done: usize = 0;
    proof {
        assert(given_paths.skip(0) =~= given_paths);
        assert(given_scopes.skip(0) =~= given_scopes);
        assert(ps.take(0) =~= Seq::<Seq<char>>::empty());
        assert(group_views(out@) =~= Seq::<GroupView>::empty());
    }
    while done < total
        invariant
            total == given_paths.len(),
            total == given_scopes.len(),
            done <= total,
            ps == views(given_paths),
            ss == scope_views(given_scopes),
            rest@ == given_paths.skip(done as int).reverse(),
            more@ == given_scopes.skip(done as int).reverse(),
            group_views(out@) == grouped(ps.take(done as int), ss.take(done as int)),
        decreases total - done,
    {
        if let Some(path) = rest.pop() {
            if let Some(scope) = more.pop() {
                proof {
                    assert(path == given_paths[done as int]);
                    assert(scope == given_scopes[done as int]);
                    assert(rest@ =~= given_paths.skip(done + 1).reverse());
                    assert(more@ =~= given_scopes.skip(done + 1).reverse());
                    assert(ps.take(done + 1).drop_last() =~= ps.take(done as int));
                    assert(ss.take(done + 1).drop_last() =~= ss.take(done as int));
                    assert(ps.take(done + 1).last() == path@);
                    assert(ss.take(done + 1).last() == scope@);
                }
                add_to_groups(&mut out, scope, path);
            }
        }
        done = done + 1;
    }
    proof {
        assert(ps.take(ps.len() as int) =~= ps);
        assert(ss.take(ss.len() as int) =~= ss);
    }
    out
}

/// What scopes hold, in order.
pub open spec fn scope_views(v: Seq<InferredScope>) -> Seq<(Seq<char>, Seq<char>)> {
    Seq::new(v.len(), |i: int| v[i]@)
}

/// A source is a copy of an earlier one when both have the same kind, size and
/// digest and one of the two is a zip. Otherwise it is read.
pub proof fn law_what_is_a_copy(v: Seq<Option<Payload>>, i: int, j: int)
    requires
        0 <= j < i < v.len(),
    ensures
        v[i] is None ==> copy_of(v, i) == -1,
        v[i] is Some && v[j] is Some && v[j]->0.kind == v[i]->0.kind && v[j]->0.size == v[i]->0.size
            && v[j]->0.digest.root@ == v[i]->0.digest.root@ && v[i]->0.is_zip ==> 0 <= copy_of(v, i)
            <= j,
        v[i] is Some && (forall|k: int|
            0 <= k < i ==> (#[trigger] v[k]) is None || v[k]->0.kind != v[i]->0.kind || v[k]->0.size
                != v[i]->0.size || v[k]->0.digest.root@ != v[i]->0.digest.root@) ==> copy_of(v, i)
            == -1,
        v[i] is Some && !v[i]->0.is_zip && (forall|k: int|
            0 <= k < i && (#[trigger] v[k]) is Some ==> !v[k]->0.is_zip) ==> copy_of(v, i) == -1,
{
    lemma_earliest_same(v, i, i);
}

proof fn lemma_earliest_same(v: Seq<Option<Payload>>, i: int, n: int)
    requires
        0 <= n <= i < v.len(),
    ensures
        -1 <= first_same(v, i, n) < n,
        first_same(v, i, n) >= 0 ==> v[i] is Some && v[first_same(v, i, n)] is Some && same_payload(
            v[first_same(v, i, n)]->0,
            v[i]->0,
        ),
        forall|k: int|
            0 <= k < n && v[i] is Some && (#[trigger] v[k]) is Some && same_payload(v[k]->0, v[i]->0)
                ==> 0 <= first_same(v, i, n) <= k,
    decreases n,
{
    if n > 0 {
        lemma_earliest_same(v, i, n - 1);
    }
}

/// The group of a scope holds this path.
pub open spec fn group_holds(
    v: Seq<GroupView>,
    scope: (Seq<char>, Seq<char>),
    path: Seq<char>,
) -> bool {
    exists|g: int|
        0 <= g < v.len() && (#[trigger] v[g]).service == scope.0 && v[g].account == scope.1
            && v[g].paths.contains(path)
}

/// How many paths the groups hold.
pub open spec fn paths_held(v: Seq<GroupView>) -> nat
    decreases v.len(),
{
    if v.len() == 0 {
        0
    } else {
        paths_held(v.drop_last()) + v.last().paths.len()
    }
}

/// The groups have scopes of their own, in order.
pub open spec fn scopes_in_order(v: Seq<GroupView>) -> bool {
    forall|a: int, b: int|
        0 <= a < b < v.len() ==> scope_before(
            ((#[trigger] v[a]).service, v[a].account),
            ((#[trigger] v[b]).service, v[b].account),
        )
}

/// Every export is in the group of its own service and account. No export is
/// lost or listed twice, and there is one group for each scope, in order.
pub proof fn law_exports_are_grouped(
    paths: Seq<Seq<char>>,
    scopes: Seq<(Seq<char>, Seq<char>)>,
    k: int,
)
    requires
        paths.len() == scopes.len(),
        0 <= k < paths.len(),
    ensures
        group_holds(grouped(paths, scopes), scopes[k], paths[k]),
        paths_held(grouped(paths, scopes)) == paths.len(),
        scopes_in_order(grouped(paths, scopes)),
    decreases paths.len(),
{
    lemma_grouped(paths, scopes);
    let n = paths.len() - 1;
    let (p, s) = (paths.drop_last(), scopes.drop_last());
    let v = grouped(p, s);
    lemma_grouped_with(v, scopes[n], paths[n]);
    if k < n {
        law_exports_are_grouped(p, s, k);
        assert(p[k] == paths[k] && s[k] == scopes[k]);
        lemma_group_stays(v, scopes[n], paths[n], scopes[k], paths[k]);
    }
}

proof fn lemma_grouped(paths: Seq<Seq<char>>, scopes: Seq<(Seq<char>, Seq<char>)>)
    requires
        paths.len() == scopes.len(),
    ensures
        paths_held(grouped(paths, scopes)) == paths.len(),
        scopes_in_order(grouped(paths, scopes)),
    decreases paths.len(),
{
    if paths.len() > 0 {
        lemma_grouped(paths.drop_last(), scopes.drop_last());
        lemma_grouped_with(
            grouped(paths.drop_last(), scopes.drop_last()),
            scopes.last(),
            paths.last(),
        );
        lemma_order_stays(
            grouped(paths.drop_last(), scopes.drop_last()),
            scopes.last(),
            paths.last(),
        );
    }
}

proof fn lemma_grouped_with(v: Seq<GroupView>, scope: (Seq<char>, Seq<char>), path: Seq<char>)
    ensures
        group_holds(grouped_with(v, scope, path), scope, path),
        paths_held(grouped_with(v, scope, path)) == paths_held(v) + 1,
    decreases v.len(),
{
    let w = grouped_with(v, scope, path);
    let fresh = GroupView { service: scope.0, account: scope.1, paths: seq![path] };
    if v.len() == 0 {
        reveal_with_fuel(paths_held, 2);
        assert(w.drop_last() =~= Seq::<GroupView>::empty());
        assert(w[0].paths[0] == path);
    } else {
        let last = v.last();
        let key = (last.service, last.account);
        if key == scope {
            assert(w.drop_last() =~= v.drop_last());
            assert(w[w.len() - 1].paths[last.paths.len() as int] == path);
        } else if scope_before(key, scope) {
            assert(w.drop_last() =~= v);
            assert(w[w.len() - 1] == fresh);
            assert(fresh.paths[0] == path);
        } else {
            let head = grouped_with(v.drop_last(), scope, path);
            lemma_grouped_with(v.drop_last(), scope, path);
            assert(w.drop_last() =~= head);
            let g = choose|g: int|
                0 <= g < head.len() && (#[trigger] head[g]).service == scope.0 && head[g].account
                    == scope.1 && head[g].paths.contains(path);
            assert(w[g] == head[g]);
        }
    }
}

proof fn lemma_group_stays(
    v: Seq<GroupView>,
    scope: (Seq<char>, Seq<char>),
    path: Seq<char>,
    other: (Seq<char>, Seq<char>),
    p: Seq<char>,
)
    requires
        group_holds(v, other, p),
    ensures
        group_holds(grouped_with(v, scope, path), other, p),
    decreases v.len(),
{
    let w = grouped_with(v, scope, path);
    let g = choose|g: int|
        0 <= g < v.len() && (#[trigger] v[g]).service == other.0 && v[g].account == other.1
            && v[g].paths.contains(p);
    let last = v.last();
    let key = (last.service, last.account);
    if key == scope {
        if g < v.len() - 1 {
            assert(w[g] == v[g]);
        } else {
            let i = choose|i: int| 0 <= i < last.paths.len() && last.paths[i] == p;
            assert(w[g].paths[i] == p);
        }
    } else if scope_before(key, scope) {
        assert(w[g] == v[g]);
    } else {
        let head = grouped_with(v.drop_last(), scope, path);
        if g < v.len() - 1 {
            assert(v.drop_last()[g] == v[g]);
            lemma_group_stays(v.drop_last(), scope, path, other, p);
            let h = choose|h: int|
                0 <= h < head.len() && (#[trigger] head[h]).service == other.0 && head[h].account
                    == other.1 && head[h].paths.contains(p);
            assert(w[h] == head[h]);
        } else {
            assert(w[head.len() as int] == last);
        }
    }
}

/// The scope of each group of `w` is that of one of `v`, or the new one.
proof fn lemma_scopes_of(v: Seq<GroupView>, scope: (Seq<char>, Seq<char>), path: Seq<char>, a: int)
    requires
        0 <= a < grouped_with(v, scope, path).len(),
    ensures
        ({
            let x = grouped_with(v, scope, path)[a];
            (x.service, x.account) == scope || exists|b: int|
                0 <= b < v.len() && (#[trigger] v[b]).service == x.service && v[b].account
                    == x.account
        }),
    decreases v.len(),
{
    if v.len() > 0 {
        let last = v.last();
        let key = (last.service, last.account);
        let w = grouped_with(v, scope, path);
        if key == scope {
            if a < v.len() - 1 {
                assert(v[a] == w[a]);
            }
        } else if scope_before(key, scope) {
            if a < v.len() {
                assert(v[a] == w[a]);
            }
        } else {
            let init = v.drop_last();
            let head = grouped_with(init, scope, path);
            if a < head.len() {
                lemma_scopes_of(init, scope, path, a);
                let x = head[a];
                if (x.service, x.account) != scope {
                    let b = choose|b: int|
                        0 <= b < init.len() && (#[trigger] init[b]).service == x.service
                            && init[b].account == x.account;
                    assert(v[b] == init[b]);
                }
            } else {
                assert(v[v.len() - 1] == w[a]);
            }
        }
    }
}

proof fn lemma_scope_order(
    a: (Seq<char>, Seq<char>),
    b: (Seq<char>, Seq<char>),
    c: (Seq<char>, Seq<char>),
)
    ensures
        scope_before(a, b) && scope_before(b, c) ==> scope_before(a, c),
        scope_before(a, b) || scope_before(b, a) || a == b,
{
    law_string_order(a.0, b.0, c.0);
    law_string_order(a.1, b.1, c.1);
    law_string_order(b.0, a.0, c.0);
    law_string_order(b.1, a.1, c.1);
}

proof fn lemma_order_stays(v: Seq<GroupView>, scope: (Seq<char>, Seq<char>), path: Seq<char>)
    requires
        scopes_in_order(v),
    ensures
        scopes_in_order(grouped_with(v, scope, path)),
    decreases v.len(),
{
    let w = grouped_with(v, scope, path);
    if v.len() > 0 {
        let last = v.last();
        let n = v.len() - 1;
        let key = (last.service, last.account);
        let init = v.drop_last();
        assert(forall|a: int| 0 <= a < init.len() ==> #[trigger] init[a] == v[a]);
        if key == scope {
            assert forall|a: int, b: int| 0 <= a < b < w.len() implies scope_before(
                ((#[trigger] w[a]).service, w[a].account),
                ((#[trigger] w[b]).service, w[b].account),
            ) by {
                assert(scope_before((v[a].service, v[a].account), (v[b].service, v[b].account)));
            }
        } else if scope_before(key, scope) {
            assert forall|a: int, b: int| 0 <= a < b < w.len() implies scope_before(
                ((#[trigger] w[a]).service, w[a].account),
                ((#[trigger] w[b]).service, w[b].account),
            ) by {
                if b < v.len() {
                    assert(scope_before((v[a].service, v[a].account), (v[b].service, v[b].account)));
                } else if a < n {
                    assert(scope_before((v[a].service, v[a].account), (v[n].service, v[n].account)));
                    lemma_scope_order((v[a].service, v[a].account), key, scope);
                }
            }
        } else {
            let head = grouped_with(init, scope, path);
            assert(scopes_in_order(init)) by {
                assert forall|a: int, b: int| 0 <= a < b < init.len() implies scope_before(
                    ((#[trigger] init[a]).service, init[a].account),
                    ((#[trigger] init[b]).service, init[b].account),
                ) by {
                    assert(scope_before((v[a].service, v[a].account), (v[b].service, v[b].account)));
                }
            }
            lemma_order_stays(init, scope, path);
            lemma_scope_order(key, scope, scope);
            assert forall|a: int, b: int| 0 <= a < b < w.len() implies scope_before(
                ((#[trigger] w[a]).service, w[a].account),
                ((#[trigger] w[b]).service, w[b].account),
            ) by {
                if b < head.len() {
                    assert(scope_before(
                        (head[a].service, head[a].account),
                        (head[b].service, head[b].account),
                    ));
                } else {
                    lemma_scopes_of(init, scope, path, a);
                    let x = head[a];
                    assert(w[a] == x && w[b] == last);
                    if (x.service, x.account) != scope {
                        let c = choose|c: int|
                            0 <= c < init.len() && (#[trigger] init[c]).service == x.service
                                && init[c].account == x.account;
                        assert(scope_before(
                            (v[c].service, v[c].account),
                            (v[n].service, v[n].account),
                        ));
                    }
                }
            }
        }
    }
}

} // verus!
