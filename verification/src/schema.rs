//! Export records: typed fields that every export has, and leftover maps
//! that keep the rest.
//!
//! Views carry the contents. Two values with the same view hold the same
//! data.
use vstd::prelude::*;

use crate::order::is_before;
use crate::pairs::{kept, lookup, placed, union, without};
use crate::text::same_str;

verus! {

/// A number that is no integer. The text is its shortest decimal notation
/// without an exponent.
#[derive(Debug, PartialEq)]
pub struct JsonFloat {
    /// The bits of the double.
    pub bits: u64,
    pub text: String,
}

/// A JSON value. Integers prefer `i64`, then `u64`.
#[derive(Debug, PartialEq)]
pub enum JsonAtom {
    Null,
    Bool(bool),
    I64(i64),
    U64(u64),
    F64(JsonFloat),
    String(String),
    Array(Vec<JsonAtom>),
    Object(ExtraMap),
}

/// Leftover keys of an object, in key order.
#[derive(Debug, PartialEq)]
pub struct ExtraMap {
    pub entries: Vec<(String, JsonAtom)>,
}

/// What a JSON value holds.
pub enum Atom {
    Null,
    Bool(bool),
    I64(i64),
    U64(u64),
    F64(u64, Seq<char>),
    Text(Seq<char>),
    Arr(Seq<Atom>),
    Obj(Seq<(Seq<char>, Atom)>),
}

/// What a JSON value holds.
pub open spec fn atom(a: JsonAtom) -> Atom
    decreases a,
{
    match a {
        JsonAtom::Null => Atom::Null,
        JsonAtom::Bool(b) => Atom::Bool(b),
        JsonAtom::I64(i) => Atom::I64(i),
        JsonAtom::U64(u) => Atom::U64(u),
        JsonAtom::F64(f) => Atom::F64(f.bits, f.text@),
        JsonAtom::String(s) => Atom::Text(s@),
        JsonAtom::Array(v) => Atom::Arr(
            Seq::new(
                v@.len(),
                |i: int|
                    if 0 <= i < v@.len() {
                        atom(v@[i])
                    } else {
                        Atom::Null
                    },
            ),
        ),
        JsonAtom::Object(m) => Atom::Obj(
            Seq::new(
                m.entries@.len(),
                |i: int|
                    if 0 <= i < m.entries@.len() {
                        (m.entries@[i].0@, atom(m.entries@[i].1))
                    } else {
                        (Seq::empty(), Atom::Null)
                    },
            ),
        ),
    }
}

impl View for JsonAtom {
    type V = Atom;

    open spec fn view(&self) -> Atom {
        atom(*self)
    }
}

/// What JSON values hold, in order.
pub open spec fn atoms(v: Seq<JsonAtom>) -> Seq<Atom> {
    Seq::new(v.len(), |i: int| v[i]@)
}

impl View for ExtraMap {
    type V = Seq<(Seq<char>, Atom)>;

    open spec fn view(&self) -> Seq<(Seq<char>, Atom)> {
        Seq::new(self.entries@.len(), |i: int| (self.entries@[i].0@, self.entries@[i].1@))
    }
}

/// The view of an array and of an object.
pub proof fn lemma_atom(v: Vec<JsonAtom>, m: ExtraMap)
    ensures
        JsonAtom::Array(v)@ == Atom::Arr(atoms(v@)),
        JsonAtom::Object(m)@ == Atom::Obj(m@),
{
    assert(atom(JsonAtom::Array(v))->Arr_0 =~= atoms(v@));
    assert(atom(JsonAtom::Object(m))->Obj_0 =~= m@);
}

/// The view of an optional JSON value.
pub open spec fn opt_atom(a: Option<JsonAtom>) -> Option<Atom> {
    match a {
        Some(x) => Some(x@),
        None => None,
    }
}

/// The view of an optional reference to a JSON value.
pub open spec fn ref_atom(a: Option<&JsonAtom>) -> Option<Atom> {
    match a {
        Some(x) => Some(x@),
        None => None,
    }
}

impl JsonAtom {
    /// A copy of this value.
    pub fn copied(&self) -> (r: JsonAtom)
        ensures
            r@ == self@,
        decreases self,
    {
        match self {
            JsonAtom::Null => JsonAtom::Null,
            JsonAtom::Bool(b) => JsonAtom::Bool(*b),
            JsonAtom::I64(i) => JsonAtom::I64(*i),
            JsonAtom::U64(u) => JsonAtom::U64(*u),
            JsonAtom::F64(f) => JsonAtom::F64(JsonFloat { bits: f.bits, text: f.text.clone() }),
            JsonAtom::String(s) => JsonAtom::String(s.clone()),
            JsonAtom::Array(v) => {
                let mut out: Vec<JsonAtom> = Vec::new();
                let mut i: usize = 0;
                while i < v.len()
                    invariant
                        i <= v@.len(),
                        out@.len() == i,
                        *self == JsonAtom::Array(*v),
                        forall|k: int| 0 <= k < i ==> (#[trigger] out@[k])@ == v@[k]@,
                    decreases v.len() - i,
                {
                    proof {
                        assert(decreases_to!(*self => self->Array_0));
                        assert(decreases_to!(*v => v@));
                        assert(decreases_to!(v@ => v@[i as int]));
                    }
                    out.push(v[i].copied());
                    i = i + 1;
                }
                proof {
                    assert(atom(JsonAtom::Array(out))->Arr_0 =~= atom(*self)->Arr_0);
                }
                JsonAtom::Array(out)
            },
            JsonAtom::Object(m) => {
                let v = &m.entries;
                let mut out: Vec<(String, JsonAtom)> = Vec::new();
                let mut i: usize = 0;
                while i < v.len()
                    invariant
                        i <= v@.len(),
                        out@.len() == i,
                        *v == m.entries,
                        *self == JsonAtom::Object(*m),
                        forall|k: int|
                            0 <= k < i ==> (#[trigger] out@[k]).0@ == v@[k].0@ && out@[k].1@
                                == v@[k].1@,
                    decreases v.len() - i,
                {
                    proof {
                        assert(decreases_to!(*self => self->Object_0));
                        assert(decreases_to!(*m => m.entries));
                        assert(decreases_to!(*v => v@));
                        assert(decreases_to!(v@ => v@[i as int]));
                        assert(decreases_to!(v@[i as int] => v@[i as int].1));
                    }
                    out.push((v[i].0.clone(), v[i].1.copied()));
                    i = i + 1;
                }
                let r = JsonAtom::Object(ExtraMap { entries: out });
                proof {
                    assert(atom(r)->Obj_0 =~= atom(*self)->Obj_0);
                }
                r
            },
        }
    }
}

/// A copy of an optional JSON value.
pub fn copied_atom(a: &Option<JsonAtom>) -> (r: Option<JsonAtom>)
    ensures
        opt_atom(r) == opt_atom(*a),
{
    match a {
        Some(x) => Some(x.copied()),
        None => None,
    }
}

impl ExtraMap {
    /// A map without entries.
    pub fn new() -> (r: ExtraMap)
        ensures
            r@ == Seq::<(Seq<char>, Atom)>::empty(),
    {
        let r = ExtraMap { entries: Vec::new() };
        proof {
            assert(r@ =~= Seq::<(Seq<char>, Atom)>::empty());
        }
        r
    }

    /// Whether the map has no entries.
    pub fn is_empty(&self) -> (r: bool)
        ensures
            r == (self@.len() == 0),
    {
        self.entries.len() == 0
    }

    /// A copy of this map.
    pub fn copied(&self) -> (r: ExtraMap)
        ensures
            r@ == self@,
    {
        let mut out: Vec<(String, JsonAtom)> = Vec::new();
        let mut i: usize = 0;
        while i < self.entries.len()
            invariant
                i <= self.entries@.len(),
                out@.len() == i,
                forall|k: int|
                    0 <= k < i ==> (#[trigger] out@[k]).0@ == self.entries@[k].0@ && out@[k].1@
                        == self.entries@[k].1@,
            decreases self.entries.len() - i,
        {
            out.push((self.entries[i].0.clone(), self.entries[i].1.copied()));
            i = i + 1;
        }
        let r = ExtraMap { entries: out };
        proof {
            assert(r@ =~= self@);
        }
        r
    }

    /// The value under `key`.
    pub fn get(&self, key: &str) -> (r: Option<&JsonAtom>)
        ensures
            ref_atom(r) == lookup(self@, key@),
    {
        let ghost fs = self@;
        let mut i: usize = self.entries.len();
        proof {
            assert(fs.take(fs.len() as int) =~= fs);
        }
        while i > 0
            invariant
                i <= self.entries@.len(),
                fs == self@,
                lookup(fs, key@) == lookup(fs.take(i as int), key@),
            decreases i,
        {
            proof {
                assert(fs.take(i as int).drop_last() =~= fs.take(i - 1));
                assert(fs.take(i as int).last() == fs[i - 1]);
            }
            if same_str(self.entries[i - 1].0.as_str(), key) {
                return Some(&self.entries[i - 1].1);
            }
            i = i - 1;
        }
        None
    }

    /// Puts `value` under `key`.
    pub fn insert(&mut self, key: String, value: JsonAtom)
        ensures
            final(self)@ == placed(old(self)@, key@, value@),
    {
        let ghost fs = self@;
        let ghost v = value@;
        let mut i: usize = self.entries.len();
        proof {
            assert(fs.take(fs.len() as int) =~= fs);
            assert(fs.skip(fs.len() as int) =~= Seq::<(Seq<char>, Atom)>::empty());
            assert(placed(fs, key@, v) + fs.skip(fs.len() as int) =~= placed(fs, key@, v));
        }
        while i > 0
            invariant
                i <= self.entries@.len(),
                fs == self@,
                fs == old(self)@,
                v == value@,
                placed(fs, key@, v) == placed(fs.take(i as int), key@, v) + fs.skip(i as int),
            decreases i,
        {
            proof {
                assert(fs.take(i as int).drop_last() =~= fs.take(i - 1));
                assert(fs.take(i as int).last() == fs[i - 1]);
            }
            if same_str(self.entries[i - 1].0.as_str(), key.as_str()) {
                let ghost k = key@;
                self.entries.set(i - 1, (key, value));
                proof {
                    assert(self@ =~= fs.take(i - 1).push((k, v)) + fs.skip(i as int));
                }
                return;
            }
            if is_before(self.entries[i - 1].0.as_str(), key.as_str()) {
                let ghost k = key@;
                self.entries.insert(i, (key, value));
                proof {
                    assert(self@ =~= fs.take(i as int).push((k, v)) + fs.skip(i as int));
                }
                return;
            }
            proof {
                let p = placed(fs.take(i - 1), key@, v);
                assert(p.push(fs[i - 1]) + fs.skip(i as int) =~= p + fs.skip(i - 1));
            }
            i = i - 1;
        }
        let ghost k = key@;
        self.entries.insert(0, (key, value));
        proof {
            assert(fs.take(0) =~= Seq::<(Seq<char>, Atom)>::empty());
            assert(fs.skip(0) =~= fs);
            assert(self@ =~= seq![(k, v)] + fs);
        }
    }

    /// Puts `value` under `key`, unless there is a value already.
    pub fn or_insert(&mut self, key: String, value: JsonAtom)
        ensures
            final(self)@ == kept(old(self)@, key@, value@),
    {
        let there = self.get(key.as_str()).is_some();
        if !there {
            self.insert(key, value);
        }
    }

    /// Takes the value under `key` away.
    pub fn remove(&mut self, key: &str) -> (r: Option<JsonAtom>)
        ensures
            opt_atom(r) == lookup(old(self)@, key@),
            final(self)@ == without(old(self)@, key@),
    {
        let ghost fs = self@;
        let ghost mut tail: Seq<(Seq<char>, Atom)> = Seq::empty();
        let mut found: Option<JsonAtom> = None;
        let mut i: usize = self.entries.len();
        proof {
            assert(fs.take(fs.len() as int) =~= fs);
            assert(fs + tail =~= fs);
            assert(without(fs, key@) + tail =~= without(fs, key@));
        }
        while i > 0
            invariant
                i <= fs.len(),
                i <= self.entries@.len(),
                self@ == fs.take(i as int) + tail,
                without(fs, key@) == without(fs.take(i as int), key@) + tail,
                found is Some ==> opt_atom(found) == lookup(fs, key@),
                found is None ==> lookup(fs, key@) == lookup(fs.take(i as int), key@),
            decreases i,
        {
            proof {
                assert(fs.take(i as int).drop_last() =~= fs.take(i - 1));
                assert(fs.take(i as int).last() == fs[i - 1]);
                assert(self@[i - 1] == fs[i - 1]);
            }
            if same_str(self.entries[i - 1].0.as_str(), key) {
                let ghost held = self@;
                let (_, value) = self.entries.remove(i - 1);
                if found.is_none() {
                    found = Some(value);
                }
                proof {
                    assert(self@ =~= held.remove(i - 1));
                    assert(self@ =~= fs.take(i - 1) + tail);
                }
            } else {
                proof {
                    let w = without(fs.take(i - 1), key@);
                    let t = seq![fs[i - 1]] + tail;
                    assert(w.push(fs[i - 1]) + tail =~= w + t);
                    assert(fs.take(i as int) + tail =~= fs.take(i - 1) + t);
                    tail = t;
                }
            }
            i = i - 1;
        }
        proof {
            assert(fs.take(0) =~= Seq::<(Seq<char>, Atom)>::empty());
            assert(fs.take(0) + tail =~= tail);
        }
        found
    }

    /// Adds the entries of `other`. Where both have a value, `other_wins`
    /// decides.
    pub fn union_with(&mut self, other: ExtraMap, other_wins: bool)
        ensures
            final(self)@ == union(old(self)@, other@, other_wins),
    {
        let ghost base = self@;
        let ghost all = other@;
        let mut rest = other.entries;
        let total: usize = rest.len();
        let mut done: usize = 0;
        let ghost given = rest@;
        proof {
            assert(all.take(0) =~= Seq::<(Seq<char>, Atom)>::empty());
            assert(given.skip(0) =~= given);
        }
        while done < total
            invariant
                done <= total,
                total == given.len(),
                given.len() == all.len(),
                forall|i: int|
                    0 <= i < all.len() ==> #[trigger] all[i] == (given[i].0@, given[i].1@),
                rest@ == given.skip(done as int),
                self@ == union(base, all.take(done as int), other_wins),
            decreases total - done,
        {
            let (key, value) = rest.remove(0);
            proof {
                assert(rest@ =~= given.skip(done + 1));
                assert(all.take(done + 1).drop_last() =~= all.take(done as int));
                assert(all.take(done + 1).last() == all[done as int]);
            }
            if other_wins {
                self.insert(key, value);
            } else {
                self.or_insert(key, value);
            }
            done = done + 1;
        }
        proof {
            assert(all.take(all.len() as int) =~= all);
        }
    }
}

/// Adds the entries of `other` to `base`. Where both have a value,
/// `other_wins` decides.
pub fn union_extra(base: ExtraMap, other: ExtraMap, other_wins: bool) -> (r: ExtraMap)
    ensures
        r@ == union(base@, other@, other_wins),
{
    let mut r = base;
    r.union_with(other, other_wins);
    r
}

/// Whether two JSON values hold the same. Numbers that are no integers are
/// compared by their bits.
pub fn same_atom(a: &JsonAtom, b: &JsonAtom) -> (r: bool)
    ensures
        r == (a@ == b@),
    decreases a,
{
    match (a, b) {
        (JsonAtom::Null, JsonAtom::Null) => true,
        (JsonAtom::Bool(x), JsonAtom::Bool(y)) => *x == *y,
        (JsonAtom::I64(x), JsonAtom::I64(y)) => *x == *y,
        (JsonAtom::U64(x), JsonAtom::U64(y)) => *x == *y,
        (JsonAtom::F64(x), JsonAtom::F64(y)) => x.bits == y.bits && same_str(&x.text, &y.text),
        (JsonAtom::String(x), JsonAtom::String(y)) => same_str(x, y),
        (JsonAtom::Array(x), JsonAtom::Array(y)) => {
            proof {
                lemma_atom(*x, ExtraMap { entries: arbitrary() });
                lemma_atom(*y, ExtraMap { entries: arbitrary() });
            }
            if x.len() != y.len() {
                proof {
                    assert(atoms(x@).len() != atoms(y@).len());
                }
                return false;
            }
            let mut i: usize = 0;
            while i < x.len()
                invariant
                    i <= x@.len(),
                    x@.len() == y@.len(),
                    *a == JsonAtom::Array(*x),
                    a@ == Atom::Arr(atoms(x@)),
                    b@ == Atom::Arr(atoms(y@)),
                    forall|k: int| 0 <= k < i ==> (#[trigger] x@[k])@ == y@[k]@,
                decreases x.len() - i,
            {
                proof {
                    assert(decreases_to!(*a => a->Array_0));
                    assert(decreases_to!(*x => x@));
                    assert(decreases_to!(x@ => x@[i as int]));
                }
                if !same_atom(&x[i], &y[i]) {
                    proof {
                        assert(atoms(x@)[i as int] != atoms(y@)[i as int]);
                    }
                    return false;
                }
                i = i + 1;
            }
            proof {
                assert(atoms(x@) =~= atoms(y@));
            }
            true
        },
        (JsonAtom::Object(x), JsonAtom::Object(y)) => {
            proof {
                lemma_atom(arbitrary(), *x);
                lemma_atom(arbitrary(), *y);
            }
            let v = &x.entries;
            let w = &y.entries;
            if v.len() != w.len() {
                proof {
                    assert(x@.len() != y@.len());
                }
                return false;
            }
            let mut i: usize = 0;
            while i < v.len()
                invariant
                    i <= v@.len(),
                    v@.len() == w@.len(),
                    *v == x.entries,
                    *w == y.entries,
                    *a == JsonAtom::Object(*x),
                    a@ == Atom::Obj(x@),
                    b@ == Atom::Obj(y@),
                    forall|k: int|
                        0 <= k < i ==> (#[trigger] v@[k]).0@ == w@[k].0@ && v@[k].1@ == w@[k].1@,
                decreases v.len() - i,
            {
                proof {
                    assert(decreases_to!(*a => a->Object_0));
                    assert(decreases_to!(*x => x.entries));
                    assert(decreases_to!(*v => v@));
                    assert(decreases_to!(v@ => v@[i as int]));
                    assert(decreases_to!(v@[i as int] => v@[i as int].1));
                }
                if !same_str(&v[i].0, &w[i].0) || !same_atom(&v[i].1, &w[i].1) {
                    proof {
                        assert(x@[i as int] != y@[i as int]);
                    }
                    return false;
                }
                i = i + 1;
            }
            proof {
                assert(x@ =~= y@);
            }
            true
        },
        _ => false,
    }
}

} // verus!
