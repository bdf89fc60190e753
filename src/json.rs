//! JSON documents: the projection of a value to JSON for inspection, and the
//! conversion of a JSON document to a value.
use vstd::prelude::*;
use crate::value::{LruValue, Value};
use crate::ieee::{f32_to_f64, f64_of_f32};

verus! {

broadcast use vstd::std_specs::vec::group_vec_axioms;

/// A JSON number: a non-negative or a negative integer, or a finite float
/// held as the bits of an `f64`.
#[derive(Clone, Copy, Debug, PartialEq, Eq)]
pub enum JsonNumber {
    PosInt(u64),
    NegInt(i64),
    Float(u64),
}

/// A JSON document; an object is a sequence of (key, value) members.
#[derive(Debug, PartialEq)]
pub enum Json {
    Null,
    Bool(bool),
    Number(JsonNumber),
    String(String),
    Array(Vec<Json>),
    Object(Vec<(String, Json)>),
}

/// The JSON number of an integer.
pub open spec fn int_number(n: int) -> JsonNumber {
    if n < 0 {
        JsonNumber::NegInt(n as i64)
    } else {
        JsonNumber::PosInt(n as u64)
    }
}

/// The binary32 value with bits `b` is finite.
pub open spec fn finite32(b: u32) -> bool {
    (b / 0x80_0000) % 256 != 255
}

/// The binary64 value with bits `b` is finite.
pub open spec fn finite64(b: u64) -> bool {
    (b / 0x10_0000_0000_0000) % 2048 != 2047
}

/// `j` is an array of the numbers of `bytes`.
pub open spec fn bytes_to(bytes: Seq<u8>, j: Json) -> bool {
    &&& j is Array
    &&& j->Array_0@.len() == bytes.len()
    &&& forall|k: int|
        0 <= k < bytes.len() ==> #[trigger] j->Array_0@[k] == Json::Number(JsonNumber::PosInt(bytes[k] as u64))
}

/// `j` is the object `{access_time, count}` of an LRU entry.
pub open spec fn lru_to(e: LruValue, j: Json) -> bool {
    &&& j is Object
    &&& j->Object_0@.len() == 2
    &&& j->Object_0@[0].0@ == seq!['a', 'c', 'c', 'e', 's', 's', '_', 't', 'i', 'm', 'e']
    &&& j->Object_0@[0].1 == Json::Number(int_number(e.access_time as int))
    &&& j->Object_0@[1].0@ == seq!['c', 'o', 'u', 'n', 't']
    &&& j->Object_0@[1].1 == Json::Number(int_number(e.count as int))
}

/// `j` is the JSON projection of `v`: wrappers are flattened, an enum shows
/// its symbol, bytes an array of numbers, a non-finite float null.
pub open spec fn projects_to(v: Value, j: Json) -> bool
    decreases v,
{
    match v {
        Value::Null => j is Null,
        Value::Boolean(b, _) => j == Json::Bool(b),
        Value::Int(n, _) => j == Json::Number(int_number(n as int)),
        Value::Long(n, _) => j == Json::Number(int_number(n as int)),
        Value::Date(n, _) => j == Json::Number(int_number(n as int)),
        Value::Float(b, _) => if finite32(b) {
            j == Json::Number(JsonNumber::Float(f64_of_f32(b)))
        } else {
            j is Null
        },
        Value::Double(b, _) => if finite64(b) {
            j == Json::Number(JsonNumber::Float(b))
        } else {
            j is Null
        },
        Value::Bytes(bs, _) => bytes_to(bs@, j),
        Value::Fixed(_, bs, _) => bytes_to(bs@, j),
        Value::String(s, _) => j is String && j->String_0@ == s@,
        Value::Enum(_, s, _) => j is String && j->String_0@ == s@,
        Value::Union(b, _) => projects_to(*b, j),
        Value::Array(items, _) => {
            &&& j is Array
            &&& j->Array_0@.len() == items@.len()
            &&& forall|k: int| 0 <= k < items@.len() ==> projects_to(#[trigger] items@[k], j->Array_0@[k])
        },
        Value::Mapping(p, _) => {
            &&& j is Object
            &&& j->Object_0@.len() == p@.len()
            &&& forall|k: int|
                0 <= k < p@.len() ==> (#[trigger] p@[k]).0@ == j->Object_0@[k].0@ && projects_to(
                    p@[k].1,
                    j->Object_0@[k].1,
                )
        },
        Value::Record(p, _) => {
            &&& j is Object
            &&& j->Object_0@.len() == p@.len()
            &&& forall|k: int|
                0 <= k < p@.len() ==> (#[trigger] p@[k]).0@ == j->Object_0@[k].0@ && projects_to(
                    p@[k].1,
                    j->Object_0@[k].1,
                )
        },
        Value::StringSet(ss, _) => {
            &&& j is Array
            &&& j->Array_0@.len() == ss@.len()
            &&& forall|k: int|
                0 <= k < ss@.len() ==> (#[trigger] j->Array_0@[k]) is String && j->Array_0@[k]->String_0@
                    == ss@[k]@
        },
        Value::LruSet(p, _, _) => {
            &&& j is Object
            &&& j->Object_0@.len() == p@.len()
            &&& forall|k: int|
                0 <= k < p@.len() ==> (#[trigger] p@[k]).0@ == j->Object_0@[k].0@ && lru_to(
                    p@[k].1,
                    j->Object_0@[k].1,
                )
        },
        Value::Optional(o, _) => match o {
            Some(b) => projects_to(*b, j),
            None => j is Null,
        },
    }
}

/// `v` is the value that the JSON document `j` converts to: integers become
/// longs (a non-negative one past `i64::MAX` wraps), floats doubles, objects
/// maps with the same keys in order; no annotation anywhere.
pub open spec fn converts_from(j: Json, v: Value) -> bool
    decreases j,
{
    match j {
        Json::Null => v is Null,
        Json::Bool(b) => v == Value::Boolean(b, None),
        Json::Number(JsonNumber::PosInt(u)) => v == Value::Long(u as i64, None),
        Json::Number(JsonNumber::NegInt(i)) => v == Value::Long(i, None),
        Json::Number(JsonNumber::Float(b)) => v == Value::Double(b, None),
        Json::String(s) => v is String && v->String_0@ == s@ && v->String_1 is None,
        Json::Array(items) => {
            &&& v is Array
            &&& v->Array_1 is None
            &&& v->Array_0@.len() == items@.len()
            &&& forall|k: int| 0 <= k < items@.len() ==> converts_from(#[trigger] items@[k], v->Array_0@[k])
        },
        Json::Object(p) => {
            &&& v is Mapping
            &&& v->Mapping_1 is None
            &&& v->Mapping_0@.len() == p@.len()
            &&& forall|k: int|
                0 <= k < p@.len() ==> (#[trigger] p@[k]).0@ == v->Mapping_0@[k].0@ && converts_from(
                    p@[k].1,
                    v->Mapping_0@[k].1,
                )
        },
    }
}

fn int_json(n: i64) -> (r: JsonNumber)
    ensures
        r == int_number(n as int),
{
    if n < 0 {
        JsonNumber::NegInt(n)
    } else {
        JsonNumber::PosInt(n as u64)
    }
}

fn bytes_json(bytes: &Vec<u8>) -> (r: Json)
    ensures
        bytes_to(bytes@, r),
{
    let mut out: Vec<Json> = Vec::new();
    let mut k: usize = 0;
    while k < bytes.len()
        invariant
            k <= bytes@.len(),
            out@.len() == k,
            forall|i: int| 0 <= i < k ==> #[trigger] out@[i] == Json::Number(JsonNumber::PosInt(bytes@[i] as u64)),
        decreases bytes@.len() - k,
    {
        out.push(Json::Number(JsonNumber::PosInt(bytes[k] as u64)));
        k += 1;
    }
    Json::Array(out)
}

fn lru_json(e: &LruValue) -> (r: Json)
    ensures
        lru_to(*e, r),
{
    proof {
        reveal_strlit("access_time");
        reveal_strlit("count");
    }
    let mut out: Vec<(String, Json)> = Vec::new();
    out.push(("access_time".to_owned(), Json::Number(int_json(e.access_time))));
    out.push(("count".to_owned(), Json::Number(int_json(e.count))));
    assert(out@[0].0@ =~= seq!['a', 'c', 'c', 'e', 's', 's', '_', 't', 'i', 'm', 'e']);
    assert(out@[1].0@ =~= seq!['c', 'o', 'u', 'n', 't']);
    Json::Object(out)
}

fn pairs_json(p: &Vec<(String, Value)>, Ghost(whole): Ghost<Value>) -> (r: Vec<(String, Json)>)
    requires
        whole is Mapping && whole->Mapping_0 == *p || whole is Record && whole->Record_0 == *p,
    ensures
        r@.len() == p@.len(),
        forall|k: int|
            0 <= k < p@.len() ==> (#[trigger] p@[k]).0@ == r@[k].0@ && projects_to(p@[k].1, r@[k].1),
    decreases whole, 0int,
{
    let mut out: Vec<(String, Json)> = Vec::new();
    let mut k: usize = 0;
    while k < p.len()
        invariant
            whole is Mapping && whole->Mapping_0 == *p || whole is Record && whole->Record_0 == *p,
            k <= p@.len(),
            out@.len() == k,
            forall|i: int|
                0 <= i < k ==> (#[trigger] p@[i]).0@ == out@[i].0@ && projects_to(p@[i].1, out@[i].1),
        decreases p@.len() - k,
    {
        proof {
            if whole is Mapping {
                assert(decreases_to!(whole => whole->Mapping_0));
            } else {
                assert(decreases_to!(whole => whole->Record_0));
            }
            assert(decreases_to!(*p => p@));
            assert(decreases_to!(p@ => p@[k as int]));
            assert(decreases_to!(p@[k as int] => p@[k as int].1));
        }
        let j = json(&p[k].1);
        out.push((p[k].0.clone(), j));
        k += 1;
    }
    out
}

/// Renders a value as a JSON document.
pub fn json(v: &Value) -> (r: Json)
    ensures
        projects_to(*v, r),
    decreases v, 1int,
{
    match v {
        Value::Null => Json::Null,
        Value::Boolean(b, _) => Json::Bool(*b),
        Value::Int(n, _) => Json::Number(int_json(*n as i64)),
        Value::Long(n, _) => Json::Number(int_json(*n)),
        Value::Date(n, _) => Json::Number(int_json(*n)),
        Value::Float(b, _) => if (*b / 0x80_0000) % 256 != 255 {
            Json::Number(JsonNumber::Float(f32_to_f64(*b)))
        } else {
            Json::Null
        },
        Value::Double(b, _) => if (*b / 0x10_0000_0000_0000) % 2048 != 2047 {
            Json::Number(JsonNumber::Float(*b))
        } else {
            Json::Null
        },
        Value::Bytes(bs, _) => bytes_json(bs),
        Value::Fixed(_, bs, _) => bytes_json(bs),
        Value::String(s, _) => Json::String(s.clone()),
        Value::Enum(_, s, _) => Json::String(s.clone()),
        Value::Union(b, _) => {
            proof {
                assert(decreases_to!(*v => v->Union_0));
            }
            json(b)
        },
        Value::Array(items, _) => {
            let mut out: Vec<Json> = Vec::new();
            let mut k: usize = 0;
            while k < items.len()
                invariant
                    *v is Array,
                    v->Array_0 == *items,
                    k <= items@.len(),
                    out@.len() == k,
                    forall|i: int| 0 <= i < k ==> projects_to(#[trigger] items@[i], out@[i]),
                decreases items@.len() - k,
            {
                proof {
                    assert(decreases_to!(*v => v->Array_0));
                    assert(decreases_to!(*items => items@));
                    assert(decreases_to!(items@ => items@[k as int]));
                }
                out.push(json(&items[k]));
                k += 1;
            }
            Json::Array(out)
        },
        Value::Mapping(p, _) => Json::Object(pairs_json(p, Ghost(*v))),
        Value::Record(p, _) => Json::Object(pairs_json(p, Ghost(*v))),
        Value::StringSet(ss, _) => {
            let mut out: Vec<Json> = Vec::new();
            let mut k: usize = 0;
            while k < ss.len()
                invariant
                    k <= ss@.len(),
                    out@.len() == k,
                    forall|i: int|
                        0 <= i < k ==> (#[trigger] out@[i]) is String && out@[i]->String_0@ == ss@[i]@,
                decreases ss@.len() - k,
            {
                out.push(Json::String(ss[k].clone()));
                k += 1;
            }
            Json::Array(out)
        },
        Value::LruSet(p, _, _) => {
            let mut out: Vec<(String, Json)> = Vec::new();
            let mut k: usize = 0;
            while k < p.len()
                invariant
                    k <= p@.len(),
                    out@.len() == k,
                    forall|i: int| 0 <= i < k ==> (#[trigger] p@[i]).0@ == out@[i].0@ && lru_to(p@[i].1, out@[i].1),
                decreases p@.len() - k,
            {
                out.push((p[k].0.clone(), lru_json(&p[k].1)));
                k += 1;
            }
            Json::Object(out)
        },
        Value::Optional(o, _) => match o {
            Some(b) => {
                proof {
                    assert(decreases_to!(*v => v->Optional_0));
                }
                json(b)
            },
            None => Json::Null,
        },
    }
}

fn value_of_json(j: &Json) -> (r: Value)
    ensures
        converts_from(*j, r),
    decreases j,
{
    match j {
        Json::Null => Value::Null,
        Json::Bool(b) => Value::Boolean(*b, None),
        Json::Number(JsonNumber::PosInt(u)) => Value::Long(*u as i64, None),
        Json::Number(JsonNumber::NegInt(i)) => Value::Long(*i, None),
        Json::Number(JsonNumber::Float(b)) => Value::Double(*b, None),
        Json::String(s) => Value::String(s.clone(), None),
        Json::Array(items) => {
            let mut out: Vec<Value> = Vec::new();
            let mut k: usize = 0;
            while k < items.len()
                invariant
                    *j is Array,
                    j->Array_0 == *items,
                    k <= items@.len(),
                    out@.len() == k,
                    forall|i: int| 0 <= i < k ==> converts_from(#[trigger] items@[i], out@[i]),
                decreases items@.len() - k,
            {
                proof {
                    assert(decreases_to!(*j => j->Array_0));
                    assert(decreases_to!(*items => items@));
                    assert(decreases_to!(items@ => items@[k as int]));
                }
                out.push(value_of_json(&items[k]));
                k += 1;
            }
            Value::Array(out, None)
        },
        Json::Object(p) => {
            let mut out: Vec<(String, Value)> = Vec::new();
            let mut k: usize = 0;
            while k < p.len()
                invariant
                    *j is Object,
                    j->Object_0 == *p,
                    k <= p@.len(),
                    out@.len() == k,
                    forall|i: int|
                        0 <= i < k ==> (#[trigger] p@[i]).0@ == out@[i].0@ && converts_from(p@[i].1, out@[i].1),
                decreases p@.len() - k,
            {
                proof {
                    assert(decreases_to!(*j => j->Object_0));
                    assert(decreases_to!(*p => p@));
                    assert(decreases_to!(p@ => p@[k as int]));
                    assert(decreases_to!(p@[k as int] => p@[k as int].1));
                }
                out.push((p[k].0.clone(), value_of_json(&p[k].1)));
                k += 1;
            }
            Value::Mapping(out, None)
        },
    }
}

/// Converts a JSON document to a value.
pub fn from_json(j: Json) -> (r: Value)
    ensures
        converts_from(j, r),
{
    value_of_json(&j)
}

} // verus!
