//! Paths as text: `/` separates components, a leading `/` is the root.
use vstd::prelude::*;

use crate::order::{sort_order, sorted_positions};
use crate::text::{
    chars_of, either, find_last, join, join_with, last_index, lemma_split_nonempty, same_str,
    split_at_char, split_by, split_char, string_range, views,
};

verus! {

/// A component that a path keeps: neither empty nor the current directory.
pub open spec fn kept_component(p: Seq<char>) -> bool {
    p.len() > 0 && p != seq!['.']
}

/// Holds of the components that a path keeps.
pub open spec fn keeps() -> spec_fn(Seq<char>) -> bool {
    |p: Seq<char>| kept_component(p)
}

/// Components of a path. The root is the component `/`. A current-directory
/// component stays only where it opens a relative path.
pub open spec fn components(path: Seq<char>) -> Seq<Seq<char>> {
    let parts = split_char(path, '/');
    let rest = parts.filter(keeps());
    if path.len() > 0 && path[0] == '/' {
        seq![seq!['/']] + rest
    } else if parts[0] == seq!['.'] {
        seq![seq!['.']] + rest
    } else {
        rest
    }
}

/// A component that names a file or a directory.
pub open spec fn normal_component(p: Seq<char>) -> bool {
    p != seq!['/'] && p != seq!['.'] && p != seq!['.', '.']
}

/// `path` is absolute.
pub open spec fn absolute(path: Seq<char>) -> bool {
    path.len() > 0 && path[0] == '/'
}

/// The components of `base` open `path`.
pub open spec fn under(path: Seq<char>, base: Seq<char>) -> bool {
    components(base).is_prefix_of(components(path))
}

/// `part` below `base`. An absolute `part` stands alone.
pub open spec fn joined(base: Seq<char>, part: Seq<char>) -> Seq<char> {
    if absolute(part) || base.len() == 0 {
        part
    } else if base.last() == '/' {
        base + part
    } else {
        base + seq!['/'] + part
    }
}

/// Last component, when it names a file or a directory.
pub open spec fn file_name(path: Seq<char>) -> Option<Seq<char>> {
    let all = components(path);
    if all.len() > 0 && normal_component(all.last()) {
        Some(all.last())
    } else {
        None
    }
}

/// Name of the directory that holds `path`.
pub open spec fn parent_name(path: Seq<char>) -> Option<Seq<char>> {
    let all = components(path);
    if all.len() > 1 && normal_component(all[all.len() - 2]) {
        Some(all[all.len() - 2])
    } else {
        None
    }
}

/// What follows the last dot of a file name. A name without a dot, or with
/// its only dot in front, has no extension.
pub open spec fn name_extension(name: Seq<char>) -> Option<Seq<char>> {
    let dot = last_index(name, '.');
    if dot > 0 {
        Some(name.skip(dot + 1))
    } else {
        None
    }
}

/// A file name without its extension.
pub open spec fn name_stem(name: Seq<char>) -> Seq<char> {
    let dot = last_index(name, '.');
    if dot > 0 {
        name.take(dot)
    } else {
        name
    }
}

/// Extension of a path.
pub open spec fn extension(path: Seq<char>) -> Option<Seq<char>> {
    match file_name(path) {
        Some(name) => name_extension(name),
        None => None,
    }
}

/// The view of an optional string.
pub open spec fn opt_view(s: Option<String>) -> Option<Seq<char>> {
    match s {
        Some(t) => Some(t@),
        None => None,
    }
}

/// The view of an optional string slice.
pub open spec fn opt_str(s: Option<&str>) -> Option<Seq<char>> {
    match s {
        Some(t) => Some(t@),
        None => None,
    }
}

/// Whether `path` is absolute.
pub fn is_absolute(path: &str) -> (r: bool)
    ensures
        r == absolute(path@),
{
    let v = chars_of(path);
    v.len() > 0 && v[0] == '/'
}

/// The one-character string `c`.
fn single(c: char) -> (r: String)
    ensures
        r@ == seq![c],
{
    let mut s = String::new();
    s.push(c);
    proof {
        assert(s@ =~= seq![c]);
    }
    s
}

/// Components of a path.
pub fn components_of(path: &str) -> (r: Vec<String>)
    ensures
        views(r@) == components(path@),
{
    let parts = split_at_char(path, '/');
    let mut out: Vec<String> = Vec::new();
    let root = is_absolute(path);
    let dot = single('.');
    if root {
        out.push(single('/'));
    } else if parts[0] == dot {
        out.push(single('.'));
    }
    let ghost head = views(out@);
    let ghost keep = |p: Seq<char>| kept_component(p);
    let mut i: usize = 0;
    proof {
        assert(views(parts@)[0] == parts@[0]@);
        assert(views(parts@).take(0).filter(keep) =~= Seq::<Seq<char>>::empty()) by {
            reveal(Seq::filter);
        }
        assert(head + Seq::<Seq<char>>::empty() =~= head);
    }
    while i < parts.len()
        invariant
            i <= parts@.len(),
            dot@ == seq!['.'],
            keep == (|p: Seq<char>| kept_component(p)),
            views(out@) == head + views(parts@).take(i as int).filter(keep),
        decreases parts.len() - i,
    {
        let ghost before = out@;
        proof {
            reveal(Seq::filter);
            let next = views(parts@).take(i + 1);
            assert(next.drop_last() =~= views(parts@).take(i as int));
            assert(next.last() == parts@[i as int]@);
        }
        if !parts[i].is_empty() && parts[i] != dot {
            out.push(parts[i].clone());
            proof {
                assert(views(out@) =~= views(before).push(parts@[i as int]@));
                assert(views(out@) =~= head + views(parts@).take(i + 1).filter(keep));
            }
        }
        i = i + 1;
    }
    proof {
        assert(views(parts@).take(parts@.len() as int) =~= views(parts@));
        assert(head =~= Seq::<Seq<char>>::empty() || head =~= seq![seq!['/']] || head
            =~= seq![seq!['.']]);
        assert(views(out@) =~= components(path@));
    }
    out
}

/// Whether the components of `base` open `path`.
pub fn is_under(path: &str, base: &str) -> (r: bool)
    ensures
        r == under(path@, base@),
{
    let p = components_of(path);
    let b = components_of(base);
    if b.len() > p.len() {
        return false;
    }
    let mut i: usize = 0;
    while i < b.len()
        invariant
            i <= b@.len() <= p@.len(),
            views(p@) == components(path@),
            views(b@) == components(base@),
            forall|j: int| 0 <= j < i ==> p@[j]@ == b@[j]@,
        decreases b.len() - i,
    {
        if p[i] != b[i] {
            proof {
                assert(views(p@)[i as int] != views(b@)[i as int]);
                assert(views(p@).subrange(0, b@.len() as int)[i as int] != views(b@)[i as int]);
            }
            return false;
        }
        i = i + 1;
    }
    proof {
        assert(views(p@).subrange(0, b@.len() as int) =~= views(b@));
    }
    true
}

/// `part` below `base`.
pub fn join_path(base: &str, part: &str) -> (r: String)
    ensures
        r@ == joined(base@, part@),
{
    let b = chars_of(base);
    if is_absolute(part) || b.len() == 0 {
        return part.to_owned();
    }
    let mut out = base.to_owned();
    if b[b.len() - 1] != '/' {
        out.push('/');
        proof {
            assert(out@ =~= base@ + seq!['/']);
        }
    }
    out.push_str(part);
    out
}

/// Last component, when it names a file or a directory.
pub fn file_name_of(path: &str) -> (r: Option<String>)
    ensures
        opt_view(r) == file_name(path@),
{
    let all = components_of(path);
    name_at(&all, 0)
}

/// Name of the directory that holds `path`.
pub fn parent_name_of(path: &str) -> (r: Option<String>)
    ensures
        opt_view(r) == parent_name(path@),
{
    let all = components_of(path);
    name_at(&all, 1)
}

/// Component `back` places before the last, when it is a name.
fn name_at(all: &Vec<String>, back: usize) -> (r: Option<String>)
    ensures
        opt_view(r) == (if all@.len() > back && normal_component(
            views(all@)[all@.len() - 1 - back],
        ) {
            Some(views(all@)[all@.len() - 1 - back])
        } else {
            None
        }),
{
    if all.len() <= back {
        return None;
    }
    let last = &all[all.len() - 1 - back];
    let dots = {
        let mut s = single('.');
        s.push('.');
        s
    };
    proof {
        assert(dots@ =~= seq!['.', '.']);
    }
    if *last == single('/') || *last == single('.') || *last == dots {
        None
    } else {
        Some(last.clone())
    }
}

/// Extension of a file name.
pub fn extension_of_name(name: &str) -> (r: Option<String>)
    ensures
        opt_view(r) == name_extension(name@),
{
    let v = chars_of(name);
    match find_last(&v, '.') {
        Some(dot) => {
            if dot > 0 {
                proof {
                    assert(v@.subrange(dot + 1, v@.len() as int) =~= name@.skip(dot + 1));
                }
                Some(string_range(&v, dot + 1, v.len()))
            } else {
                None
            }
        },
        None => None,
    }
}

/// A file name without its extension.
pub fn stem_of_name(name: &str) -> (r: String)
    ensures
        r@ == name_stem(name@),
{
    let v = chars_of(name);
    match find_last(&v, '.') {
        Some(dot) => {
            if dot > 0 {
                proof {
                    assert(v@.subrange(0, dot as int) =~= name@.take(dot as int));
                }
                string_range(&v, 0, dot)
            } else {
                name.to_owned()
            }
        },
        None => name.to_owned(),
    }
}

/// Whether two paths have the same components.
pub fn same_path(a: &str, b: &str) -> (r: bool)
    ensures
        r == (components(a@) == components(b@)),
{
    let same = is_under(a, b) && is_under(b, a);
    proof {
        let x = components(a@);
        let y = components(b@);
        if same {
            assert(x =~= y);
        }
        if x == y {
            assert(x.take(y.len() as int) =~= y);
        }
    }
    same
}

/// Extension of a path.
pub fn extension_of(path: &str) -> (r: Option<String>)
    ensures
        opt_view(r) == extension(path@),
{
    match file_name_of(path) {
        Some(name) => extension_of_name(name.as_str()),
        None => None,
    }
}

/// Splitting around a separator.
pub proof fn lemma_split_around(a: Seq<char>, c: char, b: Seq<char>)
    ensures
        split_char(a + seq![c] + b, c) == split_char(a, c) + split_char(b, c),
    decreases b.len(),
{
    let cut = either(c, c);
    let s = a + seq![c] + b;
    lemma_split_nonempty(a, cut);
    if b.len() == 0 {
        assert(s.drop_last() =~= a);
        assert(split_by(s, cut) =~= split_by(a, cut) + seq![Seq::<char>::empty()]);
        assert(split_by(b, cut) =~= seq![Seq::<char>::empty()]);
    } else {
        let b0 = b.drop_last();
        lemma_split_around(a, c, b0);
        lemma_split_nonempty(b0, cut);
        assert(s.drop_last() =~= a + seq![c] + b0);
        let x = split_by(a, cut);
        let y = split_by(b0, cut);
        if cut(b.last()) {
            assert((x + y).push(Seq::empty()) =~= x + y.push(Seq::empty()));
        } else {
            assert((x + y).drop_last().push((x + y).last().push(s.last())) =~= x + y.drop_last().push(
                y.last().push(b.last()),
            ));
        }
    }
}

/// Splitting before text without separators.
pub proof fn lemma_split_before(a: Seq<char>, c: char, t: Seq<char>)
    requires
        !t.contains(c),
    ensures
        split_char(a + t, c) == split_char(a, c).drop_last().push(split_char(a, c).last() + t),
    decreases t.len(),
{
    let cut = either(c, c);
    lemma_split_nonempty(a, cut);
    let x = split_by(a, cut);
    if t.len() == 0 {
        assert(a + t =~= a);
        assert(x.last() + t =~= x.last());
        assert(x.drop_last().push(x.last()) =~= x);
    } else {
        let t0 = t.drop_last();
        assert(!t0.contains(c)) by {
            if t0.contains(c) {
                let k = choose|k: int| 0 <= k < t0.len() && t0[k] == c;
                assert(t[k] == c);
            }
        }
        lemma_split_before(a, c, t0);
        assert((a + t).drop_last() =~= a + t0);
        assert(t[t.len() - 1] == t.last());
        assert(!cut(t.last()));
        let y = x.drop_last().push(x.last() + t0);
        assert(y.drop_last() =~= x.drop_last());
        assert((x.last() + t0).push(t.last()) =~= x.last() + t);
    }
}

/// The components of a joined path: those of the base, and what the relative
/// part adds.
pub proof fn law_joined_components(base: Seq<char>, part: Seq<char>)
    requires
        base.len() > 0,
        !absolute(part),
    ensures
        components(joined(base, part)) == components(base) + split_char(part, '/').filter(keeps()),
        under(joined(base, part), base),
{
    let c = '/';
    let s = joined(base, part);
    let tail = split_char(part, c);
    let k = keeps();
    lemma_split_nonempty(base, either(c, c));
    if base.last() == c {
        let b0 = base.drop_last();
        assert(s =~= b0 + seq![c] + part);
        assert(base =~= b0 + seq![c] + Seq::<char>::empty());
        lemma_split_around(b0, c, part);
        lemma_split_around(b0, c, Seq::empty());
        lemma_split_nonempty(b0, either(c, c));
        let x = split_char(b0, c);
        let e = split_char(Seq::<char>::empty(), c);
        Seq::filter_distributes_over_add(x, tail, k);
        Seq::filter_distributes_over_add(x, e, k);
        assert(e.filter(k) =~= Seq::<Seq<char>>::empty()) by {
            reveal_with_fuel(Seq::filter, 2);
            assert(e =~= seq![Seq::<char>::empty()]);
        }
        assert(x.filter(k) + e.filter(k) =~= x.filter(k));
        assert((x + tail)[0] == (x + e)[0]);
    } else {
        lemma_split_around(base, c, part);
        Seq::filter_distributes_over_add(split_char(base, c), tail, k);
        assert((split_char(base, c) + tail)[0] == split_char(base, c)[0]);
    }
    assert(s[0] == base[0]);
    assert(components(s) =~= components(base) + tail.filter(k));
}

/// Rank of a component: the root, then the current directory, then the
/// parent directory, then names.
pub open spec fn ranked(p: Seq<char>) -> Seq<char> {
    if p == seq!['/'] {
        seq!['\u{1}']
    } else if p == seq!['.'] {
        seq!['\u{2}']
    } else if p == seq!['.', '.'] {
        seq!['\u{3}']
    } else {
        seq!['\u{4}'] + p
    }
}

/// What paths sort by: component by component, a directory before what lies
/// in it.
pub open spec fn path_key(path: Seq<char>) -> Seq<char> {
    let all = components(path);
    join(Seq::new(all.len(), |i: int| ranked(all[i])), seq!['\u{0}'])
}

/// The sort key of a path.
pub fn path_key_of(path: &str) -> (r: String)
    ensures
        r@ == path_key(path@),
{
    let all = components_of(path);
    let ghost want = Seq::new(components(path@).len(), |i: int| ranked(components(path@)[i]));
    let root = single('/');
    let here = single('.');
    let mut up = single('.');
    up.push('.');
    proof {
        assert(up@ =~= seq!['.', '.']);
    }
    let mut out: Vec<String> = Vec::new();
    let mut i: usize = 0;
    while i < all.len()
        invariant
            i <= all@.len(),
            views(all@) == components(path@),
            root@ == seq!['/'],
            here@ == seq!['.'],
            up@ == seq!['.', '.'],
            out@.len() == i,
            forall|k: int| 0 <= k < i ==> (#[trigger] out@[k])@ == ranked(all@[k]@),
        decreases all.len() - i,
    {
        let p = all[i].as_str();
        let tag = if same_str(p, root.as_str()) {
            single('\u{1}')
        } else if same_str(p, here.as_str()) {
            single('\u{2}')
        } else if same_str(p, up.as_str()) {
            single('\u{3}')
        } else {
            let mut t = single('\u{4}');
            t.push_str(p);
            t
        };
        out.push(tag);
        i = i + 1;
    }
    let sep = single('\u{0}');
    proof {
        assert forall|k: int| 0 <= k < want.len() implies #[trigger] want[k] == views(out@)[k] by {
            assert(components(path@)[k] == views(all@)[k]);
        }
        assert(views(out@) =~= want);
    }
    join_with(out.as_slice(), sep.as_str())
}

/// `r` lists `paths` in path order; equal paths keep their places.
pub open spec fn sorted_paths(paths: Seq<String>, r: Seq<String>) -> bool {
    exists|keys: Seq<String>, p: Seq<usize>|
        {
            &&& keys.len() == paths.len()
            &&& forall|i: int| 0 <= i < paths.len() ==> (#[trigger] keys[i])@ == path_key(paths[i]@)
            &&& #[trigger] sorted_positions(keys, 0, keys.len() as int, p)
            &&& r.len() == paths.len()
            &&& forall|i: int| 0 <= i < r.len() ==> #[trigger] r[i] == paths[p[i] as int]
        }
}

/// `paths` in path order.
pub fn sort_paths(paths: &Vec<String>) -> (r: Vec<String>)
    ensures
        sorted_paths(paths@, r@),
{
    let mut keys: Vec<String> = Vec::new();
    let mut i: usize = 0;
    while i < paths.len()
        invariant
            i <= paths@.len(),
            keys@.len() == i,
            forall|k: int| 0 <= k < i ==> (#[trigger] keys@[k])@ == path_key(paths@[k]@),
        decreases paths.len() - i,
    {
        keys.push(path_key_of(paths[i].as_str()));
        i = i + 1;
    }
    let p = sort_order(&keys);
    let mut out: Vec<String> = Vec::new();
    let mut j: usize = 0;
    while j < p.len()
        invariant
            j <= p@.len(),
            p@.len() == p.len(),
            keys@.len() == paths@.len(),
            sorted_positions(keys@, 0, keys@.len() as int, p@),
            out@.len() == j,
            forall|k: int| 0 <= k < j ==> #[trigger] out@[k] == paths@[p@[k] as int],
        decreases p.len() - j,
    {
        proof {
            assert(p@.contains(p@[j as int]));
        }
        out.push(paths[p[j]].clone());
        j = j + 1;
    }
    proof {
        assert(sorted_positions(keys@, 0, keys@.len() as int, p@));
    }
    out
}

/// A name of one file or directory.
pub open spec fn plain_name(name: Seq<char>) -> bool {
    &&& name.len() > 0
    &&& !name.contains('/')
    &&& name != seq!['.']
    &&& name != seq!['.', '.']
}

proof fn lemma_name_split(name: Seq<char>)
    requires
        !name.contains('/'),
    ensures
        split_char(name, '/') == seq![name],
{
    let none = Seq::<char>::empty();
    lemma_split_before(none, '/', name);
    assert(none + name =~= name);
    assert(split_char(none, '/') =~= seq![none]);
    assert(split_char(name, '/') =~= seq![name]);
}

/// A name below a directory adds one component, and it is the file name. The
/// directory above it is that of the path it was joined to.
pub proof fn law_joined_name(base: Seq<char>, name: Seq<char>)
    requires
        plain_name(name),
    ensures
        components(joined(base, name)) == components(base).push(name),
        file_name(joined(base, name)) == Some(name),
        parent_name(joined(base, name)) == file_name(base),
        under(joined(base, name), base),
{
    lemma_name_split(name);
    let k = keeps();
    assert(seq![name].filter(k) =~= seq![name]) by {
        reveal_with_fuel(Seq::filter, 2);
        assert(seq![name].drop_last() =~= Seq::<Seq<char>>::empty());
    }
    assert(name.contains(name[0]));
    if base.len() > 0 {
        law_joined_components(base, name);
        assert(components(base) + seq![name] =~= components(base).push(name));
    } else {
        law_no_components();
        assert(base =~= Seq::<char>::empty());
        assert(components(base).push(name) =~= seq![name]);
        assert(components(joined(base, name)) =~= seq![name]);
    }
    assert(normal_component(name)) by {
        if name == seq!['/'] {
            assert(name[0] == '/');
        }
    }
    let all = components(joined(base, name));
    assert(all.take(components(base).len() as int) =~= components(base));
    if base.len() > 0 && components(base).len() > 0 {
        assert(all[all.len() - 2] == components(base).last());
    }
}

/// The empty path has no component, the root has one.
pub proof fn law_no_components()
    ensures
        components(Seq::<char>::empty()) == Seq::<Seq<char>>::empty(),
        components(seq!['/']) == seq![seq!['/']],
        file_name(seq!['/']) is None,
{
    let none = Seq::<char>::empty();
    let k = keeps();
    lemma_name_split(none);
    lemma_split_around(none, '/', none);
    assert(none + seq!['/'] + none =~= seq!['/']);
    reveal_with_fuel(Seq::filter, 3);
    assert(seq![none].drop_last() =~= Seq::<Seq<char>>::empty());
    assert(seq![none].filter(k) =~= Seq::<Seq<char>>::empty());
    let two = seq![none] + seq![none];
    assert(two.drop_last() =~= seq![none]);
    assert(two.filter(k) =~= Seq::<Seq<char>>::empty());
    assert(components(seq!['/']) =~= seq![seq!['/']]);
}

/// A separator or a current-directory component at the end changes no
/// component.
pub proof fn law_trailing_separator(path: Seq<char>)
    requires
        path.len() > 0,
    ensures
        components(path + seq!['/']) == components(path),
        components(path + seq!['/', '.']) == components(path),
{
    let none = Seq::<char>::empty();
    let dot = seq!['.'];
    let k = keeps();
    let x = split_char(path, '/');
    lemma_split_nonempty(path, either('/', '/'));
    lemma_split_around(path, '/', none);
    lemma_split_around(path, '/', dot);
    assert(path + seq!['/'] + none =~= path + seq!['/']);
    assert(path + seq!['/'] + dot =~= path + seq!['/', '.']);
    lemma_name_split(none);
    lemma_name_split(dot);
    Seq::filter_distributes_over_add(x, seq![none], k);
    Seq::filter_distributes_over_add(x, seq![dot], k);
    reveal_with_fuel(Seq::filter, 2);
    assert(seq![none].drop_last() =~= Seq::<Seq<char>>::empty());
    assert(seq![dot].drop_last() =~= Seq::<Seq<char>>::empty());
    assert(seq![none].filter(k) =~= Seq::<Seq<char>>::empty());
    assert(seq![dot].filter(k) =~= Seq::<Seq<char>>::empty());
    assert(x.filter(k) + Seq::<Seq<char>>::empty() =~= x.filter(k));
    assert((x + seq![none])[0] == x[0]);
    assert((x + seq![dot])[0] == x[0]);
}

/// A name and its extension: what stands behind the last dot, where something
/// stands before it.
pub proof fn law_name_and_extension(stem: Seq<char>, ext: Seq<char>)
    requires
        !ext.contains('.'),
    ensures
        stem.len() > 0 ==> name_extension(stem + seq!['.'] + ext) == Some(ext),
        stem.len() > 0 ==> name_stem(stem + seq!['.'] + ext) == stem,
        stem.len() == 0 ==> name_extension(seq!['.'] + ext) is None,
        stem.len() == 0 ==> name_stem(seq!['.'] + ext) == seq!['.'] + ext,
        name_extension(ext) is None,
        name_stem(ext) == ext,
{
    let name = stem + seq!['.'] + ext;
    lemma_last_dot(stem, ext);
    lemma_last_dot(Seq::empty(), ext);
    assert(Seq::<char>::empty() + seq!['.'] + ext =~= seq!['.'] + ext);
    lemma_no_dot(ext);
    assert(name.skip(stem.len() as int + 1) =~= ext);
    assert(name.take(stem.len() as int) =~= stem);
}

proof fn lemma_last_dot(stem: Seq<char>, ext: Seq<char>)
    requires
        !ext.contains('.'),
    ensures
        last_index(stem + seq!['.'] + ext, '.') == stem.len(),
    decreases ext.len(),
{
    let s = stem + seq!['.'] + ext;
    if ext.len() == 0 {
        assert(s.last() == '.');
    } else {
        let e = ext.drop_last();
        assert(ext.contains(ext[ext.len() - 1]));
        assert(s.last() == ext[ext.len() - 1]);
        assert(s.drop_last() =~= stem + seq!['.'] + e);
        assert(!e.contains('.')) by {
            if e.contains('.') {
                let i = choose|i: int| 0 <= i < e.len() && e[i] == '.';
                assert(ext[i] == '.');
            }
        }
        lemma_last_dot(stem, e);
    }
}

proof fn lemma_no_dot(s: Seq<char>)
    requires
        !s.contains('.'),
    ensures
        last_index(s, '.') == -1,
    decreases s.len(),
{
    if s.len() > 0 {
        let e = s.drop_last();
        assert(s.contains(s[s.len() - 1]));
        assert(!e.contains('.')) by {
            if e.contains('.') {
                let i = choose|i: int| 0 <= i < e.len() && e[i] == '.';
                assert(s[i] == '.');
            }
        }
        lemma_no_dot(e);
    }
}

/// Two names, one below the other, add two components.
pub proof fn law_joined_two(base: Seq<char>, a: Seq<char>, b: Seq<char>)
    requires
        plain_name(a),
        plain_name(b),
    ensures
        components(joined(joined(base, a), b)) == components(base) + seq![a, b],
{
    law_joined_name(base, a);
    law_joined_name(joined(base, a), b);
    let c = components(base);
    assert(c.push(a).push(b) =~= c + seq![a, b]);
}

} // verus!
