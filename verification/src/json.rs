//! JSON documents of the RPC surface.
//!
//! A document is a `serde_json::Value`. [`json_of`] names what it holds, and
//! the functions here read and build documents one level at a time.
use vstd::prelude::*;

use crate::text::same_str;

verus! {

/// `serde_json::Value`.
#[verifier::external_type_specification]
#[verifier::external_body]
pub struct ExJsonValue(serde_json::Value);

/// What a JSON document holds. Numbers are integers, or the text of a
/// number that is none. Object fields keep their order.
pub enum Json {
    Null,
    Bool(bool),
    Int(int),
    Float(Seq<char>),
    Text(Seq<char>),
    Arr(Seq<Json>),
    Obj(Seq<(Seq<char>, Json)>),
}

/// What a document holds.
pub uninterp spec fn json_of(v: serde_json::Value) -> Json;

/// What documents hold, in order.
pub open spec fn jsons(v: Seq<serde_json::Value>) -> Seq<Json> {
    Seq::new(v.len(), |i: int| json_of(v[i]))
}

/// One level of a document.
pub enum JsonNode<'a> {
    Null,
    Bool(bool),
    Number(Option<i64>, Option<u64>, String),
    Text(String),
    Array(Vec<&'a serde_json::Value>),
    Object(Vec<(String, &'a serde_json::Value)>),
}

/// `n` is the top level of `j`.
pub open spec fn is_top(j: Json, n: JsonNode) -> bool {
    match n {
        JsonNode::Null => j == Json::Null,
        JsonNode::Bool(b) => j == Json::Bool(b),
        JsonNode::Number(Some(i), u, _) => j == Json::Int(i as int) && u == (if i >= 0 {
            Some(i as u64)
        } else {
            None
        }),
        JsonNode::Number(None, Some(u), _) => j == Json::Int(u as int) && u > i64::MAX,
        JsonNode::Number(None, None, t) => j == Json::Float(t@),
        JsonNode::Text(s) => j == Json::Text(s@),
        JsonNode::Array(v) => j == Json::Arr(Seq::new(v@.len(), |i: int| json_of(*v@[i]))),
        JsonNode::Object(v) => j == Json::Obj(
            Seq::new(v@.len(), |i: int| (v@[i].0@, json_of(*v@[i].1))),
        ),
    }
}

/// The variants of `serde_json::Value`. `Number::as_i64` and
/// `Number::as_u64` hand back the integers that fit, and the text of any
/// other number is its JSON text.
#[verifier::external_body]
pub(crate) fn read_json(v: &serde_json::Value) -> (r: JsonNode<'_>)
    ensures
        is_top(json_of(*v), r),
{
    match v {
        serde_json::Value::Null => JsonNode::Null,
        serde_json::Value::Bool(b) => JsonNode::Bool(*b),
        serde_json::Value::Number(n) => JsonNode::Number(n.as_i64(), n.as_u64(), n.to_string()),
        serde_json::Value::String(s) => JsonNode::Text(s.clone()),
        serde_json::Value::Array(a) => JsonNode::Array(a.iter().collect()),
        serde_json::Value::Object(m) => {
            JsonNode::Object(m.iter().map(|(k, x)| (k.clone(), x)).collect())
        },
    }
}

/// One level of a document to build.
pub enum JsonPart {
    Null,
    Bool(bool),
    Int(i64),
    Uint(u64),
    Text(String),
    Array(Vec<serde_json::Value>),
    Object(Vec<(String, serde_json::Value)>),
}

/// What a document with the top level `p` holds.
pub open spec fn part_json(p: JsonPart) -> Json {
    match p {
        JsonPart::Null => Json::Null,
        JsonPart::Bool(b) => Json::Bool(b),
        JsonPart::Int(i) => Json::Int(i as int),
        JsonPart::Uint(u) => Json::Int(u as int),
        JsonPart::Text(s) => Json::Text(s@),
        JsonPart::Array(v) => Json::Arr(jsons(v@)),
        JsonPart::Object(v) => object(named_fields(v@)),
    }
}

/// What named documents hold, in order.
pub open spec fn named_fields(v: Seq<(String, serde_json::Value)>) -> Seq<(Seq<char>, Json)> {
    Seq::new(v.len(), |i: int| (v[i].0@, json_of(v[i].1)))
}

/// Fields with one more: in the place of an earlier one of the same name,
/// else at the end.
pub open spec fn field_put(fs: Seq<(Seq<char>, Json)>, key: Seq<char>, x: Json) -> Seq<
    (Seq<char>, Json),
> {
    if field_of(fs, key) is Some {
        Seq::new(
            fs.len(),
            |i: int|
                if fs[i].0 == key {
                    (key, x)
                } else {
                    fs[i]
                },
        )
    } else {
        fs.push((key, x))
    }
}

/// Fields put one after the other.
pub open spec fn fields_put(fs: Seq<(Seq<char>, Json)>) -> Seq<(Seq<char>, Json)>
    decreases fs.len(),
{
    if fs.len() == 0 {
        fs
    } else {
        field_put(fields_put(fs.drop_last()), fs.last().0, fs.last().1)
    }
}

/// The object with these fields. Of fields with the same name the last one
/// counts.
pub open spec fn object(fs: Seq<(Seq<char>, Json)>) -> Json {
    Json::Obj(fields_put(fs))
}

/// The variants of `serde_json::Value`. An object collects its fields in
/// their order, and a field with an earlier name takes that one's place.
#[verifier::external_body]
pub(crate) fn write_json(p: JsonPart) -> (r: serde_json::Value)
    ensures
        json_of(r) == part_json(p),
{
    match p {
        JsonPart::Null => serde_json::Value::Null,
        JsonPart::Bool(b) => serde_json::Value::Bool(b),
        JsonPart::Int(i) => serde_json::Value::Number(i.into()),
        JsonPart::Uint(u) => serde_json::Value::Number(u.into()),
        JsonPart::Text(s) => serde_json::Value::String(s),
        JsonPart::Array(a) => serde_json::Value::Array(a),
        JsonPart::Object(fields) => serde_json::Value::Object(fields.into_iter().collect()),
    }
}

/// `serde_json::Value::clone` holds what the document holds.
pub assume_specification[ <serde_json::Value as Clone>::clone ](v: &serde_json::Value) -> (r:
    serde_json::Value)
    ensures
        json_of(r) == json_of(*v),
;

/// The value of the field `key` among `fs`.
pub open spec fn field_of(fs: Seq<(Seq<char>, Json)>, key: Seq<char>) -> Option<Json>
    decreases fs.len(),
{
    if fs.len() == 0 {
        None
    } else if fs.last().0 == key {
        Some(fs.last().1)
    } else {
        field_of(fs.drop_last(), key)
    }
}

/// The field `key` of an object. Other documents have no fields.
pub open spec fn field(j: Json, key: Seq<char>) -> Option<Json> {
    match j {
        Json::Obj(fs) => field_of(fs, key),
        _ => None,
    }
}

/// The field `key` of a document.
pub fn get_field<'a>(v: &'a serde_json::Value, key: &str) -> (r: Option<&'a serde_json::Value>)
    ensures
        match r {
            Some(x) => field(json_of(*v), key@) == Some(json_of(*x)),
            None => field(json_of(*v), key@) is None,
        },
{
    match read_json(v) {
        JsonNode::Object(fields) => {
            let ghost fs = json_of(*v)->Obj_0;
            let mut found: Option<&'a serde_json::Value> = None;
            let mut i: usize = 0;
            proof {
                assert(fs.take(0) =~= Seq::<(Seq<char>, Json)>::empty());
            }
            while i < fields.len()
                invariant
                    i <= fields@.len(),
                    fs.len() == fields@.len(),
                    forall|k: int|
                        0 <= k < fs.len() ==> #[trigger] fs[k] == (
                            fields@[k].0@,
                            json_of(*fields@[k].1),
                        ),
                    match found {
                        Some(x) => field_of(fs.take(i as int), key@) == Some(json_of(*x)),
                        None => field_of(fs.take(i as int), key@) is None,
                    },
                decreases fields.len() - i,
            {
                proof {
                    assert(fs.take(i + 1).drop_last() =~= fs.take(i as int));
                    assert(fs[i as int] == fs.take(i + 1).last());
                }
                if same_str(fields[i].0.as_str(), key) {
                    found = Some(fields[i].1);
                }
                i = i + 1;
            }
            proof {
                assert(fs.take(fs.len() as int) =~= fs);
            }
            found
        },
        _ => None,
    }
}

/// A string document.
pub fn text_value(s: &str) -> (r: serde_json::Value)
    ensures
        json_of(r) == Json::Text(s@),
{
    write_json(JsonPart::Text(s.to_owned()))
}

/// A string document, or null.
pub open spec fn opt_text(s: Option<Seq<char>>) -> Json {
    match s {
        Some(t) => Json::Text(t),
        None => Json::Null,
    }
}

/// A string document, or null.
pub fn opt_text_value(s: &Option<String>) -> (r: serde_json::Value)
    ensures
        json_of(r) == opt_text(crate::paths::opt_view(*s)),
{
    match s {
        Some(t) => text_value(t.as_str()),
        None => write_json(JsonPart::Null),
    }
}

/// A number document.
pub fn count_value(n: usize) -> (r: serde_json::Value)
    ensures
        json_of(r) == Json::Int(n as int),
{
    write_json(JsonPart::Uint(n as u64))
}

/// An array document.
pub fn array_value(v: Vec<serde_json::Value>) -> (r: serde_json::Value)
    ensures
        json_of(r) == Json::Arr(jsons(v@)),
{
    write_json(JsonPart::Array(v))
}

/// An array of strings.
pub open spec fn texts(s: Seq<Seq<char>>) -> Json {
    Json::Arr(Seq::new(s.len(), |i: int| Json::Text(s[i])))
}

/// An array of strings.
pub fn texts_value(v: &Vec<String>) -> (r: serde_json::Value)
    ensures
        json_of(r) == texts(crate::text::views(v@)),
{
    let mut out: Vec<serde_json::Value> = Vec::new();
    let mut i: usize = 0;
    while i < v.len()
        invariant
            i <= v@.len(),
            out@.len() == i,
            forall|k: int| 0 <= k < i ==> json_of(#[trigger] out@[k]) == Json::Text(v@[k]@),
        decreases v.len() - i,
    {
        out.push(text_value(v[i].as_str()));
        i = i + 1;
    }
    proof {
        assert(jsons(out@) =~= texts(crate::text::views(v@))->Arr_0);
    }
    array_value(out)
}

/// The object with one field.
pub fn object1(a: &str, x: serde_json::Value) -> (r: serde_json::Value)
    ensures
        json_of(r) == Json::Obj(seq![(a@, json_of(x))]),
{
    let mut v: Vec<(String, serde_json::Value)> = Vec::new();
    let ghost want = seq![(a@, json_of(x))];
    v.push((a.to_owned(), x));
    proof {
        assert(named_fields(v@) =~= want);
        lemma_put1(want);
    }
    write_json(JsonPart::Object(v))
}

/// The object with two fields.
pub fn object2(a: &str, x: serde_json::Value, b: &str, y: serde_json::Value) -> (r:
    serde_json::Value)
    requires
        a@ != b@,
    ensures
        json_of(r) == Json::Obj(seq![(a@, json_of(x)), (b@, json_of(y))]),
{
    let mut v: Vec<(String, serde_json::Value)> = Vec::new();
    let ghost want = seq![(a@, json_of(x)), (b@, json_of(y))];
    v.push((a.to_owned(), x));
    v.push((b.to_owned(), y));
    proof {
        assert(named_fields(v@) =~= want);
        lemma_put2(want);
    }
    write_json(JsonPart::Object(v))
}

/// The object with three fields.
pub fn object3(
    a: &str,
    x: serde_json::Value,
    b: &str,
    y: serde_json::Value,
    c: &str,
    z: serde_json::Value,
) -> (r: serde_json::Value)
    requires
        a@ != b@,
        a@ != c@,
        b@ != c@,
    ensures
        json_of(r) == Json::Obj(seq![(a@, json_of(x)), (b@, json_of(y)), (c@, json_of(z))]),
{
    let mut v: Vec<(String, serde_json::Value)> = Vec::new();
    let ghost want = seq![(a@, json_of(x)), (b@, json_of(y)), (c@, json_of(z))];
    v.push((a.to_owned(), x));
    v.push((b.to_owned(), y));
    v.push((c.to_owned(), z));
    proof {
        assert(named_fields(v@) =~= want);
        lemma_put3(want);
    }
    write_json(JsonPart::Object(v))
}

proof fn lemma_put1(fs: Seq<(Seq<char>, Json)>)
    requires
        fs.len() == 1,
    ensures
        fields_put(fs) == fs,
{
    reveal_with_fuel(fields_put, 2);
    assert(fs.drop_last() =~= Seq::<(Seq<char>, Json)>::empty());
    assert(fields_put(fs) =~= fs);
}

proof fn lemma_put2(fs: Seq<(Seq<char>, Json)>)
    requires
        fs.len() == 2,
        fs[0].0 != fs[1].0,
    ensures
        fields_put(fs) == fs,
{
    lemma_put1(fs.drop_last());
    reveal_with_fuel(field_of, 2);
    assert(fields_put(fs) =~= fs);
}

proof fn lemma_put3(fs: Seq<(Seq<char>, Json)>)
    requires
        fs.len() == 3,
        fs[0].0 != fs[1].0,
        fs[0].0 != fs[2].0,
        fs[1].0 != fs[2].0,
    ensures
        fields_put(fs) == fs,
{
    lemma_put2(fs.drop_last());
    reveal_with_fuel(field_of, 3);
    assert(fields_put(fs) =~= fs);
}

/// A list of named documents.
pub type Fields = Vec<(String, serde_json::Value)>;

/// The fields with one more.
pub fn with_field(v: Fields, name: &str, x: serde_json::Value) -> (r: Fields)
    ensures
        named_fields(r@) == named_fields(v@).push((name@, json_of(x))),
{
    let ghost held = named_fields(v@);
    let mut v = v;
    v.push((name.to_owned(), x));
    proof {
        assert(named_fields(v@) =~= held.push((name@, json_of(x))));
    }
    v
}

/// No fields yet.
pub fn no_fields() -> (r: Fields)
    ensures
        named_fields(r@) == Seq::<(Seq<char>, Json)>::empty(),
{
    let v: Fields = Vec::new();
    proof {
        assert(named_fields(v@) =~= Seq::<(Seq<char>, Json)>::empty());
    }
    v
}

/// The object with these fields.
pub fn object_of(v: Fields) -> (r: serde_json::Value)
    ensures
        json_of(r) == object(named_fields(v@)),
{
    write_json(JsonPart::Object(v))
}

/// A truth value.
pub fn bool_value(b: bool) -> (r: serde_json::Value)
    ensures
        json_of(r) == Json::Bool(b),
{
    write_json(JsonPart::Bool(b))
}

/// The null document.
pub fn null_value() -> (r: serde_json::Value)
    ensures
        json_of(r) == Json::Null,
{
    write_json(JsonPart::Null)
}

/// A number document.
pub fn u64_value(n: u64) -> (r: serde_json::Value)
    ensures
        json_of(r) == Json::Int(n as int),
{
    write_json(JsonPart::Uint(n))
}

/// A number document.
pub fn i64_value(n: i64) -> (r: serde_json::Value)
    ensures
        json_of(r) == Json::Int(n as int),
{
    write_json(JsonPart::Int(n))
}

/// An array of constant strings.
pub fn strs_value(v: &Vec<&'static str>) -> (r: serde_json::Value)
    ensures
        json_of(r) == texts(str_views(v@)),
{
    let mut out: Vec<serde_json::Value> = Vec::new();
    let mut i: usize = 0;
    while i < v.len()
        invariant
            i <= v@.len(),
            out@.len() == i,
            forall|k: int| 0 <= k < i ==> json_of(#[trigger] out@[k]) == Json::Text(v@[k]@),
        decreases v.len() - i,
    {
        out.push(text_value(v[i]));
        i = i + 1;
    }
    proof {
        assert(jsons(out@) =~= texts(str_views(v@))->Arr_0);
    }
    array_value(out)
}

/// The views of constant strings.
pub open spec fn str_views(v: Seq<&'static str>) -> Seq<Seq<char>> {
    Seq::new(v.len(), |i: int| v[i]@)
}

/// A field that is put into an object is found there. The others stay.
pub proof fn law_field_put(fs: Seq<(Seq<char>, Json)>, key: Seq<char>, x: Json, other: Seq<char>)
    ensures
        field_of(field_put(fs, key, x), other) == if other == key {
            Some(x)
        } else {
            field_of(fs, other)
        },
{
    if field_of(fs, key) is Some {
        lemma_field_updated(fs, key, x, other);
        assert(field_put(fs, key, x) =~= Seq::new(
            fs.len(),
            |i: int|
                if fs[i].0 == key {
                    (key, x)
                } else {
                    fs[i]
                },
        ));
    } else {
        assert(fs.push((key, x)).drop_last() =~= fs);
    }
}

proof fn lemma_field_updated(fs: Seq<(Seq<char>, Json)>, key: Seq<char>, x: Json, other: Seq<char>)
    ensures
        ({
            let now = Seq::new(
                fs.len(),
                |i: int|
                    if fs[i].0 == key {
                        (key, x)
                    } else {
                        fs[i]
                    },
            );
            field_of(now, other) == if other == key && field_of(fs, key) is Some {
                Some(x)
            } else {
                field_of(fs, other)
            }
        }),
    decreases fs.len(),
{
    let now = Seq::new(
        fs.len(),
        |i: int|
            if fs[i].0 == key {
                (key, x)
            } else {
                fs[i]
            },
    );
    if fs.len() > 0 {
        let init = fs.drop_last();
        lemma_field_updated(init, key, x, other);
        assert(now.drop_last() =~= Seq::new(
            init.len(),
            |i: int|
                if init[i].0 == key {
                    (key, x)
                } else {
                    init[i]
                },
        ));
    }
}

/// An object reads back what it was made of: under each name the last value
/// that was given for it.
pub proof fn law_object_reads_back(fs: Seq<(Seq<char>, Json)>, i: int, other: Seq<char>)
    ensures
        0 <= i < fs.len() && (forall|j: int| i < j < fs.len() ==> (#[trigger] fs[j]).0 != fs[i].0)
            ==> field(object(fs), fs[i].0) == Some(fs[i].1),
        (forall|j: int| 0 <= j < fs.len() ==> (#[trigger] fs[j]).0 != other) ==> field(
            object(fs),
            other,
        ) is None,
    decreases fs.len(),
{
    if fs.len() > 0 {
        let init = fs.drop_last();
        let last = fs.last();
        law_object_reads_back(init, i, other);
        assert(forall|j: int| 0 <= j < init.len() ==> #[trigger] init[j] == fs[j]);
        law_field_put(fields_put(init), last.0, last.1, other);
        if 0 <= i < fs.len() {
            law_field_put(fields_put(init), last.0, last.1, fs[i].0);
        }
        assert(last == fs[fs.len() - 1]);
    }
}

} // verus!
