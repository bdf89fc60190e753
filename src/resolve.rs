//! Schema resolution: coercing a value written under one schema into the
//! shape that another schema asks for.
use vstd::prelude::*;
use vstd::utf8::{decode_utf8, encode_utf8, valid_utf8};
use crate::value::{setting, get_value_setting, LruValue, SchemaResolutionError, Value};
use crate::schema::{RecordField, Schema};
use crate::validate::{contains_text, first_valid, symbols_contain};
use crate::text::{decode_bytes, parse_rfc2822, parse_rfc3339, rfc2822_millis, rfc3339_millis};
use crate::ieee::{f32_of_int, f64_of_int, narrows_to, widens_to, f32_to_f64, f64_to_f32, int_to_f32, int_to_f64};

verus! {

broadcast use vstd::std_specs::vec::group_vec_axioms;

/// Name of the recency field of an LRU entry.
pub open spec fn access_time_name() -> Seq<char> {
    seq!['a', 'c', 'c', 'e', 's', 's', '_', 't', 'i', 'm', 'e']
}

/// Name of the frequency field of an LRU entry.
pub open spec fn count_name() -> Seq<char> {
    seq!['c', 'o', 'u', 'n', 't']
}

/// The value inside a union, or the value itself.
pub open spec fn unwrap_union(v: Value) -> Value {
    match v {
        Value::Union(b, _) => *b,
        _ => v,
    }
}

/// The number a value resolves to against the `int` schema.
pub open spec fn int_payload(v: Value) -> Option<i32> {
    match unwrap_union(v) {
        Value::Int(n, _) => Some(n),
        Value::Long(n, _) => Some(n as i32),
        _ => None,
    }
}

/// The number a value resolves to against the `long` schema.
pub open spec fn long_payload(v: Value) -> Option<i64> {
    match unwrap_union(v) {
        Value::Int(n, _) => Some(n as i64),
        Value::Long(n, _) => Some(n),
        _ => None,
    }
}

/// The byte an array element stands for, when it resolves to an `int` in 0..=255.
pub open spec fn byte_of(v: Value) -> Option<u8> {
    match int_payload(v) {
        Some(n) => if 0 <= n <= 255 {
            Some(n as u8)
        } else {
            None
        },
        None => None,
    }
}

/// Position of the last pair keyed by `name`, or -1.
pub open spec fn last_index<X>(pairs: Seq<(String, X)>, name: Seq<char>) -> int
    decreases pairs.len(),
{
    if pairs.len() == 0 {
        -1
    } else if pairs.last().0@ == name {
        pairs.len() - 1
    } else {
        last_index(pairs.drop_last(), name)
    }
}

/// The entries of a map or record value.
pub open spec fn entries_of(v: Value) -> Seq<(String, Value)> {
    match v {
        Value::Mapping(p, _) => p@,
        Value::Record(p, _) => p@,
        _ => Seq::empty(),
    }
}

/// The entry of the source that feeds field `k`: the last one under its
/// name, unless an earlier field of the same name has taken it; or -1.
pub open spec fn field_source(pairs: Seq<(String, Value)>, fields: Seq<RecordField>, k: int) -> int {
    if forall|j: int| 0 <= j < k ==> (#[trigger] fields[j]).name@ != fields[k].name@ {
        last_index(pairs, fields[k].name@)
    } else {
        -1
    }
}

/// The entry of an LRU set that a value resolves to, through the built-in
/// record of two `long` fields that both default to 0.
pub open spec fn lru_of(v: Value) -> Option<LruValue> {
    let w = unwrap_union(v);
    let p = entries_of(w);
    let a = last_index(p, access_time_name());
    let c = last_index(p, count_name());
    if !(w is Mapping || w is Record) {
        None
    } else if a >= 0 && long_payload(p[a].1) is None {
        None
    } else if c >= 0 && long_payload(p[c].1) is None {
        None
    } else {
        Some(
            LruValue {
                access_time: if a >= 0 { long_payload(p[a].1)->0 } else { 0 },
                count: if c >= 0 { long_payload(p[c].1)->0 } else { 0 },
            },
        )
    }
}

/// `k` is the first position of a symbol with the characters `t`.
pub open spec fn first_text(names: Seq<String>, t: Seq<char>, k: int) -> bool {
    &&& 0 <= k < names.len()
    &&& names[k]@ == t
    &&& forall|j: int| 0 <= j < k ==> (#[trigger] names[j])@ != t
}

/// The symbol that an enum or string value names.
pub open spec fn symbol_text(v: Value) -> Seq<char> {
    match v {
        Value::Enum(_, t, _) => t@,
        _ => v->String_0@,
    }
}

/// `r` is the enum value for symbol `t` of `symbols`: its first position.
pub open spec fn enum_result(symbols: Seq<String>, t: Seq<char>, index: bool, r: Value) -> bool {
    &&& r is Enum
    &&& r->Enum_1@ == t
    &&& r->Enum_2 == setting(index)
    &&& exists|k: int| #[trigger] first_text(symbols, t, k) && r->Enum_0 == k as i32
}

/// Two sequences of strings hold the same characters, position by position.
pub open spec fn same_texts(a: Seq<String>, b: Seq<String>) -> bool {
    &&& a.len() == b.len()
    &&& forall|k: int| 0 <= k < a.len() ==> (#[trigger] a[k])@ == b[k]@
}

/// No two strings of `a` hold the same characters.
pub open spec fn distinct_texts(a: Seq<String>) -> bool {
    forall|i: int, j: int| 0 <= i < j < a.len() ==> (#[trigger] a[i])@ != (#[trigger] a[j])@
}

/// `out` holds, once each, the strings of the string values `items`.
pub open spec fn set_of_items(items: Seq<Value>, out: Seq<String>) -> bool {
    &&& distinct_texts(out)
    &&& forall|k: int| 0 <= k < items.len() ==> contains_text(out, (#[trigger] items[k])->String_0@)
    &&& forall|j: int| 0 <= j < out.len() ==> item_text(items, (#[trigger] out[j])@)
}

/// Some string value of `items` holds the characters `t`.
pub open spec fn item_text(items: Seq<Value>, t: Seq<char>) -> bool {
    exists|k: int| 0 <= k < items.len() && (#[trigger] items[k])->String_0@ == t
}

/// Two LRU sets hold the same keys with the same entries, in the same order.
pub open spec fn same_entries(a: Seq<(String, LruValue)>, b: Seq<(String, LruValue)>) -> bool {
    &&& a.len() == b.len()
    &&& forall|k: int| 0 <= k < a.len() ==> (#[trigger] a[k]).0@ == b[k].0@ && a[k].1 == b[k].1
}

/// Resolution of `v` against `s` succeeds.
pub open spec fn can_resolve(v: Value, s: Schema, index: bool) -> bool
    decreases s, v, 1int,
{
    if v is Union && !(s is Union) {
        can_resolve_case(*v->Union_0, s, index)
    } else {
        can_resolve_case(v, s, index)
    }
}

/// Resolution of `v` against `s` yields `r`.
pub open spec fn resolves(v: Value, s: Schema, index: bool, r: Value) -> bool
    decreases s, v, 1int,
{
    if v is Union && !(s is Union) {
        resolves_case(*v->Union_0, s, index, r)
    } else {
        resolves_case(v, s, index, r)
    }
}

/// Success of resolution once a union source has been opened.
pub open spec fn can_resolve_case(v: Value, s: Schema, index: bool) -> bool
    decreases s, v, 0int,
{
    match s {
        Schema::Null => v is Null,
        Schema::Boolean => v is Boolean,
        Schema::Int | Schema::Long => v is Int || v is Long,
        Schema::Float | Schema::Double => v is Int || v is Long || v is Float || v is Double,
        Schema::Bytes => match v {
            Value::Bytes(..) | Value::String(..) => true,
            Value::Array(items, _) => forall|k: int|
                0 <= k < items@.len() ==> byte_of(#[trigger] items@[k]) is Some,
            _ => false,
        },
        Schema::String => match v {
            Value::String(..) => true,
            Value::Bytes(b, _) => valid_utf8(b@),
            _ => false,
        },
        Schema::Fixed { size, .. } => match v {
            Value::Fixed(n, _, _) => n == size,
            _ => false,
        },
        Schema::Enum { symbols, .. } => match v {
            Value::Enum(i, t, _) => 0 <= i < (symbols@.len() as i32) && contains_text(symbols@, t@),
            Value::String(t, _) => contains_text(symbols@, t@),
            _ => false,
        },
        Schema::Union(u) => {
            let w = unwrap_union(v);
            exists|k: int| first_valid(u.schemas@, w, k) && can_resolve(w, #[trigger] u.schemas@[k], false)
        },
        Schema::Array(inner) => match v {
            Value::Array(items, _) => forall|k: int|
                0 <= k < items@.len() ==> can_resolve(#[trigger] items@[k], *inner, index),
            _ => false,
        },
        Schema::Mapping(inner) => match v {
            Value::Mapping(items, _) => forall|k: int|
                0 <= k < items@.len() ==> can_resolve(#[trigger] items@[k].1, *inner, index),
            _ => false,
        },
        Schema::Record { fields, .. } => {
            let p = entries_of(v);
            &&& (v is Mapping || v is Record)
            &&& forall|k: int| 0 <= k < fields@.len() ==> {
                let f = #[trigger] fields@[k];
                let j = field_source(p, fields@, k);
                if 0 <= j < p.len() {
                    can_resolve(p[j].1, f.schema, f.index)
                } else {
                    match f.default {
                        Some(d) => !(f.schema is Enum && d is Union) && can_resolve(d, f.schema, f.index),
                        None => false,
                    }
                }
            }
        },
        Schema::Date => match v {
            Value::Long(..) | Value::Date(..) => true,
            Value::String(t, _) => rfc3339_millis(t@) is Some || rfc2822_millis(t@) is Some,
            _ => false,
        },
        Schema::StringSet => match v {
            Value::Array(items, _) => forall|k: int| 0 <= k < items@.len() ==> (#[trigger] items@[k]) is String,
            Value::StringSet(..) => true,
            _ => false,
        },
        Schema::LruSet(_) => match v {
            Value::Mapping(items, _) => forall|k: int|
                0 <= k < items@.len() ==> lru_of(#[trigger] items@[k].1) is Some,
            Value::LruSet(..) => true,
            _ => false,
        },
        Schema::Optional(inner) => match v {
            Value::Optional(o, _) => match o {
                Some(b) => can_resolve(*b, *inner, false),
                None => true,
            },
            _ => can_resolve(v, *inner, false),
        },
    }
}

/// The outcome of resolution once a union source has been opened.
pub open spec fn resolves_case(v: Value, s: Schema, index: bool, r: Value) -> bool
    decreases s, v, 0int,
{
    match s {
        Schema::Null => r is Null,
        Schema::Boolean => r == Value::Boolean(v->Boolean_0, setting(index)),
        Schema::Int => r == Value::Int(int_payload(v)->0, None),
        Schema::Long => r == Value::Long(long_payload(v)->0, None),
        Schema::Float => r is Float && r->Float_1 is None && match v {
            Value::Int(n, _) => r->Float_0 == f32_of_int(n as int),
            Value::Long(n, _) => r->Float_0 == f32_of_int(n as int),
            Value::Float(x, _) => r->Float_0 == x,
            _ => narrows_to(v->Double_0, r->Float_0),
        },
        Schema::Double => r is Double && r->Double_1 is None && match v {
            Value::Int(n, _) => r->Double_0 == f64_of_int(n as int),
            Value::Long(n, _) => r->Double_0 == f64_of_int(n as int),
            Value::Float(x, _) => widens_to(x, r->Double_0),
            _ => r->Double_0 == v->Double_0,
        },
        Schema::Bytes => r is Bytes && r->Bytes_1 is None && match v {
            Value::Bytes(b, _) => r->Bytes_0@ == b@,
            Value::String(t, _) => r->Bytes_0@ == encode_utf8(t@),
            Value::Array(items, _) => {
                &&& r->Bytes_0@.len() == items@.len()
                &&& forall|k: int|
                    0 <= k < items@.len() ==> Some(#[trigger] r->Bytes_0@[k]) == byte_of(items@[k])
            },
            _ => false,
        },
        Schema::String => r is String && r->String_1 == setting(index) && match v {
            Value::String(t, _) => r->String_0@ == t@,
            Value::Bytes(b, _) => r->String_0@ == decode_utf8(b@),
            _ => false,
        },
        Schema::Fixed { .. } => r is Fixed && r->Fixed_0 == v->Fixed_0 && r->Fixed_1@ == v->Fixed_1@
            && r->Fixed_2 is None,
        Schema::Enum { symbols, .. } => enum_result(symbols@, symbol_text(v), index, r),
        Schema::Union(u) => {
            let w = unwrap_union(v);
            &&& r is Union
            &&& r->Union_1 is None
            &&& exists|k: int|
                first_valid(u.schemas@, w, k) && resolves(w, #[trigger] u.schemas@[k], false, *r->Union_0)
        },
        Schema::Array(inner) => {
            let items = v->Array_0@;
            &&& r is Array
            &&& r->Array_1 == setting(index)
            &&& r->Array_0@.len() == items.len()
            &&& forall|k: int|
                0 <= k < items.len() ==> resolves(#[trigger] items[k], *inner, index, r->Array_0@[k])
        },
        Schema::Mapping(inner) => {
            let items = v->Mapping_0@;
            &&& r is Mapping
            &&& r->Mapping_1 == setting(index)
            &&& r->Mapping_0@.len() == items.len()
            &&& forall|k: int|
                0 <= k < items.len() ==> r->Mapping_0@[k].0@ == (#[trigger] items[k]).0@
                    && resolves(items[k].1, *inner, index, r->Mapping_0@[k].1)
        },
        Schema::Record { name, fields, .. } => {
            let p = entries_of(v);
            let out = r->Record_0@;
            &&& r is Record
            &&& r->Record_1 == setting(name.index)
            &&& out.len() == fields@.len()
            &&& forall|k: int| 0 <= k < fields@.len() ==> {
                let f = #[trigger] fields@[k];
                let j = field_source(p, fields@, k);
                &&& out[k].0@ == f.name@
                &&& if 0 <= j < p.len() {
                    resolves(p[j].1, f.schema, f.index, out[k].1)
                } else {
                    resolves(f.default->0, f.schema, f.index, out[k].1)
                }
            }
        },
        Schema::Date => r is Date && r->Date_1 == setting(index) && match v {
            Value::Long(x, _) => r->Date_0 == x,
            Value::Date(x, _) => r->Date_0 == x,
            Value::String(t, _) => if rfc3339_millis(t@) is Some {
                r->Date_0 == rfc3339_millis(t@)->0
            } else {
                r->Date_0 == rfc2822_millis(t@)->0
            },
            _ => false,
        },
        Schema::StringSet => r is StringSet && r->StringSet_1 == setting(index) && match v {
            Value::Array(items, _) => set_of_items(items@, r->StringSet_0@),
            Value::StringSet(ss, _) => same_texts(r->StringSet_0@, ss@),
            _ => false,
        },
        Schema::LruSet(limit) => r is LruSet && r->LruSet_1 == limit && r->LruSet_2 == setting(index)
            && match v {
            Value::Mapping(items, _) => {
                &&& r->LruSet_0@.len() == items@.len()
                &&& forall|k: int|
                    0 <= k < items@.len() ==> r->LruSet_0@[k].0@ == (#[trigger] items@[k]).0@
                        && Some(r->LruSet_0@[k].1) == lru_of(items@[k].1)
            },
            Value::LruSet(entries, _, _) => same_entries(r->LruSet_0@, entries@),
            _ => false,
        },
        Schema::Optional(inner) => r is Optional && r->Optional_1 == setting(index) && match v {
            Value::Optional(o, _) => match o {
                Some(b) => r->Optional_0 is Some && resolves(*b, *inner, false, *r->Optional_0->0),
                None => r->Optional_0 is None,
            },
            _ => r->Optional_0 is Some && resolves(v, *inner, false, *r->Optional_0->0),
        },
    }
}

/// `last_index` is -1 or the position of a pair with that key.
pub proof fn lemma_last_index_range<X>(pairs: Seq<(String, X)>, name: Seq<char>)
    ensures
        -1 <= last_index(pairs, name) < pairs.len(),
        last_index(pairs, name) >= 0 ==> pairs[last_index(pairs, name)].0@ == name,
    decreases pairs.len(),
{
    if pairs.len() > 0 && pairs.last().0@ != name {
        lemma_last_index_range(pairs.drop_last(), name);
    }
}

fn find_last(pairs: &Vec<(String, Value)>, name: &String) -> (r: Option<usize>)
    ensures
        match r {
            Some(j) => j as int == last_index(pairs@, name@) && j < pairs@.len(),
            None => last_index(pairs@, name@) == -1,
        },
{
    let mut i: usize = pairs.len();
    proof {
        assert(pairs@.subrange(0, i as int) =~= pairs@);
    }
    while i > 0
        invariant
            i <= pairs@.len(),
            last_index(pairs@, name@) == last_index(pairs@.subrange(0, i as int), name@),
        decreases i,
    {
        let ghost sub = pairs@.subrange(0, i as int);
        if pairs[i - 1].0 == *name {
            return Some(i - 1);
        }
        proof {
            assert(sub.drop_last() =~= pairs@.subrange(0, i - 1));
        }
        i -= 1;
    }
    None
}

/// The entry that feeds field `k` of a record schema.
fn source_of(pairs: &Vec<(String, Value)>, fields: &Vec<RecordField>, k: usize) -> (r: Option<usize>)
    requires
        k < fields@.len(),
    ensures
        match r {
            Some(j) => j as int == field_source(pairs@, fields@, k as int) && j < pairs@.len(),
            None => field_source(pairs@, fields@, k as int) == -1,
        },
{
    let mut j: usize = 0;
    while j < k
        invariant
            k < fields@.len(),
            j <= k,
            forall|i: int| 0 <= i < j ==> (#[trigger] fields@[i]).name@ != fields@[k as int].name@,
        decreases k - j,
    {
        if fields[j].name == fields[k].name {
            return None;
        }
        j += 1;
    }
    find_last(pairs, &fields[k].name)
}

fn copy_bytes(b: &Vec<u8>) -> (r: Vec<u8>)
    ensures
        r@ == b@,
{
    vstd::slice::slice_to_vec(b.as_slice())
}

fn copy_texts(a: &Vec<String>) -> (r: Vec<String>)
    ensures
        same_texts(r@, a@),
{
    let mut out: Vec<String> = Vec::new();
    let mut k: usize = 0;
    while k < a.len()
        invariant
            k <= a@.len(),
            out@.len() == k,
            forall|i: int| 0 <= i < k ==> (#[trigger] out@[i])@ == a@[i]@,
        decreases a@.len() - k,
    {
        out.push(a[k].clone());
        k += 1;
    }
    out
}

fn copy_entries(a: &Vec<(String, LruValue)>) -> (r: Vec<(String, LruValue)>)
    ensures
        same_entries(r@, a@),
{
    let mut out: Vec<(String, LruValue)> = Vec::new();
    let mut k: usize = 0;
    while k < a.len()
        invariant
            k <= a@.len(),
            out@.len() == k,
            forall|i: int| 0 <= i < k ==> (#[trigger] out@[i]).0@ == a@[i].0@ && out@[i].1 == a@[i].1,
        decreases a@.len() - k,
    {
        let e = LruValue { access_time: a[k].1.access_time, count: a[k].1.count };
        out.push((a[k].0.clone(), e));
        k += 1;
    }
    out
}

fn opened(v: &Value) -> (r: &Value)
    ensures
        *r == unwrap_union(*v),
{
    match v {
        Value::Union(b, _) => b,
        _ => v,
    }
}

fn int_of(v: &Value) -> (r: Option<i32>)
    ensures
        r == int_payload(*v),
{
    match opened(v) {
        Value::Int(n, _) => Some(*n),
        Value::Long(n, _) => Some(*n as i32),
        _ => None,
    }
}

fn long_of(v: &Value) -> (r: Option<i64>)
    ensures
        r == long_payload(*v),
{
    match opened(v) {
        Value::Int(n, _) => Some(*n as i64),
        Value::Long(n, _) => Some(*n),
        _ => None,
    }
}

/// Reads an array element as a byte: it must resolve to an `int` in 0..=255.
fn try_u8(v: &Value) -> (r: Option<u8>)
    ensures
        r == byte_of(*v),
{
    match int_of(v) {
        Some(n) => if 0 <= n && n <= 255 {
            Some(n as u8)
        } else {
            None
        },
        None => None,
    }
}

/// Resolves a value against the built-in schema of an LRU entry.
fn resolve_lru_value(v: &Value) -> (r: Option<LruValue>)
    ensures
        r == lru_of(*v),
{
    let w = opened(v);
    let p = match w {
        Value::Mapping(p, _) => p,
        Value::Record(p, _) => p,
        _ => return None,
    };
    proof {
        reveal_strlit("access_time");
        reveal_strlit("count");
        lemma_last_index_range(p@, access_time_name());
        lemma_last_index_range(p@, count_name());
    }
    let access_name = "access_time".to_owned();
    let count_name_text = "count".to_owned();
    assert(access_name@ =~= access_time_name());
    assert(count_name_text@ =~= count_name());
    let a = find_last(p, &access_name);
    let c = find_last(p, &count_name_text);
    let access_time = match a {
        Some(j) => match long_of(&p[j].1) {
            Some(x) => x,
            None => return None,
        },
        None => 0,
    };
    let count = match c {
        Some(j) => match long_of(&p[j].1) {
            Some(x) => x,
            None => return None,
        },
        None => 0,
    };
    Some(LruValue { access_time, count })
}

fn position_of(symbols: &Vec<String>, t: &String) -> (r: Option<usize>)
    ensures
        match r {
            Some(k) => first_text(symbols@, t@, k as int),
            None => !contains_text(symbols@, t@),
        },
{
    let mut k: usize = 0;
    while k < symbols.len()
        invariant
            k <= symbols@.len(),
            forall|j: int| 0 <= j < k ==> (#[trigger] symbols@[j])@ != t@,
        decreases symbols@.len() - k,
    {
        if symbols[k] == *t {
            return Some(k);
        }
        k += 1;
    }
    None
}

fn fail(msg: &str) -> (r: Result<Value, SchemaResolutionError>)
    ensures
        r is Err,
{
    Err(SchemaResolutionError::new(msg))
}

/// Resolves `v` against `s`, with `index` as the annotation flag of the node.
pub(crate) fn resolve_internal(v: &Value, s: &Schema, index: bool) -> (r: Result<Value, SchemaResolutionError>)
    ensures
        r is Ok <==> can_resolve(*v, *s, index),
        r is Ok ==> resolves(*v, *s, index, r->Ok_0),
    decreases s, v, 2int,
{
    let is_union_schema = match s {
        Schema::Union(_) => true,
        _ => false,
    };
    match v {
        Value::Union(b, _) => if !is_union_schema {
            proof {
                assert(decreases_to!(*v => v->Union_0));
            }
            return resolve_case(b, s, index);
        },
        _ => {},
    }
    resolve_case(v, s, index)
}

fn resolve_case(v: &Value, s: &Schema, index: bool) -> (r: Result<Value, SchemaResolutionError>)
    ensures
        r is Ok <==> can_resolve_case(*v, *s, index),
        r is Ok ==> resolves_case(*v, *s, index, r->Ok_0),
    decreases s, v, 1int,
{
    match s {
        Schema::Null => match v {
            Value::Null => Ok(Value::Null),
            _ => fail("Null expected"),
        },
        Schema::Boolean => match v {
            Value::Boolean(b, _) => Ok(Value::Boolean(*b, get_value_setting(index))),
            _ => fail("Boolean expected"),
        },
        Schema::Int => match v {
            Value::Int(n, _) => Ok(Value::Int(*n, None)),
            Value::Long(n, _) => Ok(Value::Int(*n as i32, None)),
            _ => fail("Int expected"),
        },
        Schema::Long => match v {
            Value::Int(n, _) => Ok(Value::Long(*n as i64, None)),
            Value::Long(n, _) => Ok(Value::Long(*n, None)),
            _ => fail("Long expected"),
        },
        Schema::Float => match v {
            Value::Int(n, _) => Ok(Value::Float(int_to_f32(*n as i64), None)),
            Value::Long(n, _) => Ok(Value::Float(int_to_f32(*n), None)),
            Value::Float(x, _) => Ok(Value::Float(*x, None)),
            Value::Double(x, _) => Ok(Value::Float(f64_to_f32(*x), None)),
            _ => fail("Float expected"),
        },
        Schema::Double => match v {
            Value::Int(n, _) => Ok(Value::Double(int_to_f64(*n as i64), None)),
            Value::Long(n, _) => Ok(Value::Double(int_to_f64(*n), None)),
            Value::Float(x, _) => Ok(Value::Double(f32_to_f64(*x), None)),
            Value::Double(x, _) => Ok(Value::Double(*x, None)),
            _ => fail("Double expected"),
        },
        Schema::Bytes => resolve_bytes(v),
        Schema::String => match v {
            Value::String(t, _) => Ok(Value::String(t.clone(), get_value_setting(index))),
            Value::Bytes(b, _) => match decode_bytes(copy_bytes(b)) {
                Some(t) => Ok(Value::String(t, get_value_setting(index))),
                None => fail("Bytes are not valid UTF-8"),
            },
            _ => fail("String expected"),
        },
        Schema::Fixed { size, .. } => match v {
            Value::Fixed(n, b, _) => if *n == *size {
                Ok(Value::Fixed(*n, copy_bytes(b), None))
            } else {
                fail("Fixed size mismatch")
            },
            _ => fail("Fixed expected"),
        },
        Schema::Enum { .. } => resolve_enum(v, s, index),
        Schema::Union(_) => resolve_union(v, s),
        Schema::Array(_) => resolve_array(v, s, index),
        Schema::Mapping(_) => resolve_map(v, s, index),
        Schema::Record { .. } => resolve_record(v, s),
        Schema::Date => resolve_datetime(v, s, index),
        Schema::StringSet => resolve_set(v, s, index),
        Schema::LruSet(_) => resolve_lru_set(v, s, index),
        Schema::Optional(_) => resolve_optional(v, s, index),
    }
}

fn resolve_bytes(v: &Value) -> (r: Result<Value, SchemaResolutionError>)
    ensures
        r is Ok <==> can_resolve_case(*v, Schema::Bytes, false),
        r is Ok ==> resolves_case(*v, Schema::Bytes, false, r->Ok_0),
{
    match v {
        Value::Bytes(b, _) => Ok(Value::Bytes(copy_bytes(b), None)),
        Value::String(t, _) => Ok(Value::Bytes(vstd::slice::slice_to_vec(t.as_str().as_bytes()), None)),
        Value::Array(items, _) => {
            let mut out: Vec<u8> = Vec::new();
            let mut k: usize = 0;
            while k < items.len()
                invariant
                    *v is Array,
                    v->Array_0 == *items,
                    k <= items@.len(),
                    out@.len() == k,
                    forall|j: int|
                        #![trigger out@[j]]
                        #![trigger items@[j]]
                        0 <= j < k ==> Some(out@[j]) == byte_of(items@[j]),
                decreases items@.len() - k,
            {
                match try_u8(&items[k]) {
                    Some(x) => out.push(x),
                    None => return fail("Unable to convert to u8"),
                }
                k += 1;
            }
            Ok(Value::Bytes(out, None))
        },
        _ => fail("Bytes expected"),
    }
}

fn resolve_enum(v: &Value, s: &Schema, index: bool) -> (r: Result<Value, SchemaResolutionError>)
    requires
        *s is Enum,
    ensures
        r is Ok <==> can_resolve_case(*v, *s, index),
        r is Ok ==> resolves_case(*v, *s, index, r->Ok_0),
{
    let symbols = match s {
        Schema::Enum { symbols, .. } => symbols,
        _ => return fail("Enum expected"),
    };
    let t = match v {
        Value::Enum(i, t, _) => if *i >= 0 && *i < symbols.len() as i32 {
            t
        } else {
            return fail("Enum value is out of bound");
        },
        Value::String(t, _) => t,
        _ => return fail("Enum expected"),
    };
    match position_of(symbols, t) {
        Some(k) => {
            let r = Value::Enum(k as i32, t.clone(), get_value_setting(index));
            assert(first_text(symbols@, t@, k as int));
            Ok(r)
        },
        None => fail("Enum symbol is not among allowed symbols"),
    }
}

fn resolve_union(v: &Value, s: &Schema) -> (r: Result<Value, SchemaResolutionError>)
    requires
        *s is Union,
    ensures
        forall|index: bool| r is Ok <==> can_resolve_case(*v, *s, index),
        forall|index: bool| r is Ok ==> resolves_case(*v, *s, index, r->Ok_0),
    decreases s, v, 0int,
{
    let u = match s {
        Schema::Union(u) => u,
        _ => return fail("Union expected"),
    };
    let w = opened(v);
    match u.find_schema(w) {
        Some((k, b)) => {
            proof {
                assert(decreases_to!(*s => s->Union_0));
                assert(decreases_to!(s->Union_0 => s->Union_0.schemas));
                assert(decreases_to!(u.schemas => u.schemas@));
                assert(decreases_to!(u.schemas@ => u.schemas@[k as int]));
            }
            match resolve_internal(w, b, false) {
                Ok(x) => Ok(Value::Union(Box::new(x), None)),
                Err(e) => Err(e),
            }
        },
        None => fail("Could not find matching type in union"),
    }
}

fn resolve_array(v: &Value, s: &Schema, index: bool) -> (r: Result<Value, SchemaResolutionError>)
    requires
        *s is Array,
    ensures
        r is Ok <==> can_resolve_case(*v, *s, index),
        r is Ok ==> resolves_case(*v, *s, index, r->Ok_0),
    decreases s, v, 0int,
{
    let inner = match s {
        Schema::Array(inner) => inner,
        _ => return fail("Array expected"),
    };
    let items = match v {
        Value::Array(items, _) => items,
        _ => return fail("Array expected"),
    };
    let mut out: Vec<Value> = Vec::new();
    let mut k: usize = 0;
    while k < items.len()
        invariant
            *s is Array,
            s->Array_0 == *inner,
            *v is Array,
            v->Array_0 == *items,
            k <= items@.len(),
            out@.len() == k,
            forall|j: int| 0 <= j < k ==> can_resolve(#[trigger] items@[j], **inner, index),
            forall|j: int| 0 <= j < k ==> resolves(#[trigger] items@[j], **inner, index, out@[j]),
        decreases items@.len() - k,
    {
        proof {
            assert(decreases_to!(*s => s->Array_0));
        }
        match resolve_internal(&items[k], inner, index) {
            Ok(x) => out.push(x),
            Err(e) => return Err(e),
        }
        k += 1;
    }
    Ok(Value::Array(out, get_value_setting(index)))
}

fn resolve_map(v: &Value, s: &Schema, index: bool) -> (r: Result<Value, SchemaResolutionError>)
    requires
        *s is Mapping,
    ensures
        r is Ok <==> can_resolve_case(*v, *s, index),
        r is Ok ==> resolves_case(*v, *s, index, r->Ok_0),
    decreases s, v, 0int,
{
    let inner = match s {
        Schema::Mapping(inner) => inner,
        _ => return fail("Map expected"),
    };
    let items = match v {
        Value::Mapping(items, _) => items,
        _ => return fail("Map expected"),
    };
    let mut out: Vec<(String, Value)> = Vec::new();
    let mut k: usize = 0;
    while k < items.len()
        invariant
            *s is Mapping,
            s->Mapping_0 == *inner,
            *v is Mapping,
            v->Mapping_0 == *items,
            k <= items@.len(),
            out@.len() == k,
            forall|j: int| 0 <= j < k ==> can_resolve((#[trigger] items@[j]).1, **inner, index),
            forall|j: int|
                0 <= j < k ==> out@[j].0@ == (#[trigger] items@[j]).0@
                    && resolves(items@[j].1, **inner, index, out@[j].1),
        decreases items@.len() - k,
    {
        proof {
            assert(decreases_to!(*s => s->Mapping_0));
        }
        match resolve_internal(&items[k].1, inner, index) {
            Ok(x) => out.push((items[k].0.clone(), x)),
            Err(e) => return Err(e),
        }
        k += 1;
    }
    Ok(Value::Mapping(out, get_value_setting(index)))
}

fn resolve_record(v: &Value, s: &Schema) -> (r: Result<Value, SchemaResolutionError>)
    requires
        *s is Record,
    ensures
        forall|index: bool| r is Ok <==> can_resolve_case(*v, *s, index),
        forall|index: bool| r is Ok ==> resolves_case(*v, *s, index, r->Ok_0),
    decreases s, v, 0int,
{
    let (name, fields) = match s {
        Schema::Record { name, fields, .. } => (name, fields),
        _ => return fail("Record expected"),
    };
    let pairs = match v {
        Value::Mapping(p, _) => p,
        Value::Record(p, _) => p,
        _ => return fail("Record expected"),
    };
    assert(pairs@ == entries_of(*v));
    let mut out: Vec<(String, Value)> = Vec::new();
    let mut k: usize = 0;
    while k < fields.len()
        invariant
            *s is Record,
            s->fields == *fields,
            (*s matches Schema::Record { name: nm, .. } && nm == *name),
            pairs@ == entries_of(*v),
            *v is Mapping || *v is Record,
            k <= fields@.len(),
            out@.len() == k,
            forall|i: int| 0 <= i < k ==> {
                let f = #[trigger] fields@[i];
                let j = field_source(pairs@, fields@, i);
                if 0 <= j < pairs@.len() {
                    can_resolve(pairs@[j].1, f.schema, f.index)
                } else {
                    match f.default {
                        Some(d) => !(f.schema is Enum && d is Union) && can_resolve(d, f.schema, f.index),
                        None => false,
                    }
                }
            },
            forall|i: int| 0 <= i < k ==> {
                let f = #[trigger] fields@[i];
                let j = field_source(pairs@, fields@, i);
                &&& out@[i].0@ == f.name@
                &&& if 0 <= j < pairs@.len() {
                    resolves(pairs@[j].1, f.schema, f.index, out@[i].1)
                } else {
                    resolves(f.default->0, f.schema, f.index, out@[i].1)
                }
            },
        decreases fields@.len() - k,
    {
        let f = &fields[k];
        proof {
            assert(decreases_to!(*s => s->fields));
            assert(decreases_to!(*fields => fields@));
            assert(decreases_to!(fields@ => fields@[k as int]));
            assert(decreases_to!(fields@[k as int] => fields@[k as int].schema));
        }
        let resolved = match source_of(pairs, fields, k) {
            Some(j) => resolve_internal(&pairs[j].1, &f.schema, f.index),
            None => match &f.default {
                Some(d) => {
                    let enum_field = match &f.schema {
                        Schema::Enum { .. } => true,
                        _ => false,
                    };
                    let union_default = match d {
                        Value::Union(..) => true,
                        _ => false,
                    };
                    if enum_field && union_default {
                        fail("Enum default is not a symbol")
                    } else {
                        resolve_internal(d, &f.schema, f.index)
                    }
                },
                None => fail("missing field in record"),
            },
        };
        match resolved {
            Ok(x) => out.push((f.name.clone(), x)),
            Err(e) => return Err(e),
        }
        k += 1;
    }
    Ok(Value::Record(out, get_value_setting(name.index)))
}

fn resolve_datetime(v: &Value, s: &Schema, index: bool) -> (r: Result<Value, SchemaResolutionError>)
    requires
        *s is Date,
    ensures
        r is Ok <==> can_resolve_case(*v, *s, index),
        r is Ok ==> resolves_case(*v, *s, index, r->Ok_0),
{
    match v {
        Value::Long(x, _) => Ok(Value::Date(*x, get_value_setting(index))),
        Value::Date(x, _) => Ok(Value::Date(*x, get_value_setting(index))),
        Value::String(t, _) => date_from_parses(parse_rfc3339(t.as_str()), parse_rfc2822(t.as_str()), index),
        _ => fail("Date expected"),
    }
}

/// The date that text resolves to, given what parsing it as an RFC 3339 and
/// as an RFC 2822 timestamp gave: the first that succeeded, else an error.
pub fn date_from_parses(rfc3339: Option<i64>, rfc2822: Option<i64>, index: bool) -> (r: Result<Value, SchemaResolutionError>)
    ensures
        r is Ok <==> rfc3339 is Some || rfc2822 is Some,
        rfc3339 is Some ==> r is Ok && r->Ok_0 == Value::Date(rfc3339->0, setting(index)),
        rfc3339 is None && rfc2822 is Some ==> r is Ok && r->Ok_0 == Value::Date(rfc2822->0, setting(index)),
{
    match rfc3339 {
        Some(ms) => Ok(Value::Date(ms, get_value_setting(index))),
        None => match rfc2822 {
            Some(ms) => Ok(Value::Date(ms, get_value_setting(index))),
            None => fail("Couldn't resolve string value to date"),
        },
    }
}

fn resolve_set(v: &Value, s: &Schema, index: bool) -> (r: Result<Value, SchemaResolutionError>)
    requires
        *s is StringSet,
    ensures
        r is Ok <==> can_resolve_case(*v, *s, index),
        r is Ok ==> resolves_case(*v, *s, index, r->Ok_0),
{
    match v {
        Value::Array(items, _) => {
            let mut out: Vec<String> = Vec::new();
            let mut k: usize = 0;
            while k < items.len()
                invariant
                    *v is Array,
                    v->Array_0 == *items,
                    *s is StringSet,
                    k <= items@.len(),
                    distinct_texts(out@),
                    forall|j: int| 0 <= j < k ==> (#[trigger] items@[j]) is String,
                    forall|j: int| 0 <= j < k ==> contains_text(out@, (#[trigger] items@[j])->String_0@),
                    forall|i: int| 0 <= i < out@.len() ==> item_text(items@.subrange(0, k as int), (#[trigger] out@[i])@),
                decreases items@.len() - k,
            {
                match &items[k] {
                    Value::String(t, _) => {
                        if !symbols_contain(&out, t) {
                            let ghost old_out = out@;
                            out.push(t.clone());
                            proof {
                                assert forall|i: int| 0 <= i < out@.len() implies item_text(items@.subrange(0, k + 1), (#[trigger] out@[i])@) by {
                                    if i < old_out.len() {
                                        assert(out@[i] == old_out[i]);
                                        assert(item_text(items@.subrange(0, k as int), out@[i]@));
                                        let j0 = choose|j: int| 0 <= j < k && (#[trigger] items@.subrange(0, k as int)[j])->String_0@ == out@[i]@;
                                        assert(items@.subrange(0, k + 1)[j0] == items@[j0]);
                                    } else {
                                        assert(items@.subrange(0, k + 1)[k as int] == items@[k as int]);
                                        assert(items@[k as int]->String_0@ == out@[i]@);
                                    }
                                }
                                assert forall|j: int| 0 <= j < k + 1 implies contains_text(out@, (#[trigger] items@[j])->String_0@) by {
                                    if j < k {
                                        let w = choose|w: int| 0 <= w < old_out.len() && (#[trigger] old_out[w])@ == items@[j]->String_0@;
                                        assert(out@[w] == old_out[w]);
                                    } else {
                                        assert(out@[old_out.len() as int]@ == items@[j]->String_0@);
                                    }
                                }
                            }
                        } else {
                            proof {
                                assert forall|i: int| 0 <= i < out@.len() implies item_text(items@.subrange(0, k + 1), (#[trigger] out@[i])@) by {
                                    assert(item_text(items@.subrange(0, k as int), out@[i]@));
                                    let j0 = choose|j: int| 0 <= j < k && (#[trigger] items@.subrange(0, k as int)[j])->String_0@ == out@[i]@;
                                    assert(items@.subrange(0, k + 1)[j0] == items@[j0]);
                                }
                            }
                        }
                    },
                    _ => return fail("String expected"),
                }
                k += 1;
            }
            proof {
                assert(items@.subrange(0, k as int) =~= items@);
            }
            let r = Value::StringSet(out, get_value_setting(index));
            assert(set_of_items(v->Array_0@, r->StringSet_0@));
            Ok(r)
        },
        Value::StringSet(ss, _) => Ok(Value::StringSet(copy_texts(ss), get_value_setting(index))),
        _ => fail("Set expected"),
    }
}

fn resolve_lru_set(v: &Value, s: &Schema, index: bool) -> (r: Result<Value, SchemaResolutionError>)
    requires
        *s is LruSet,
    ensures
        r is Ok <==> can_resolve_case(*v, *s, index),
        r is Ok ==> resolves_case(*v, *s, index, r->Ok_0),
{
    let limit = match s {
        Schema::LruSet(limit) => *limit,
        _ => return fail("LruSet expected"),
    };
    match v {
        Value::Mapping(items, _) => {
            let mut out: Vec<(String, LruValue)> = Vec::new();
            let mut k: usize = 0;
            while k < items.len()
                invariant
                    *v is Mapping,
                    v->Mapping_0 == *items,
                    *s is LruSet,
                    s->LruSet_0 == limit,
                    k <= items@.len(),
                    out@.len() == k,
                    forall|j: int| 0 <= j < k ==> lru_of((#[trigger] items@[j]).1) is Some,
                    forall|j: int|
                        0 <= j < k ==> out@[j].0@ == (#[trigger] items@[j]).0@
                            && Some(out@[j].1) == lru_of(items@[j].1),
                decreases items@.len() - k,
            {
                match resolve_lru_value(&items[k].1) {
                    Some(e) => out.push((items[k].0.clone(), e)),
                    None => return fail("Expected LruValue record"),
                }
                k += 1;
            }
            Ok(Value::LruSet(out, limit, get_value_setting(index)))
        },
        Value::LruSet(entries, _, _) => Ok(Value::LruSet(copy_entries(entries), limit, get_value_setting(index))),
        _ => fail("LruSet expected"),
    }
}

fn resolve_optional(v: &Value, s: &Schema, index: bool) -> (r: Result<Value, SchemaResolutionError>)
    requires
        *s is Optional,
    ensures
        r is Ok <==> can_resolve_case(*v, *s, index),
        r is Ok ==> resolves_case(*v, *s, index, r->Ok_0),
    decreases s, v, 0int,
{
    let inner = match s {
        Schema::Optional(inner) => inner,
        _ => return fail("Optional expected"),
    };
    proof {
        assert(decreases_to!(*s => s->Optional_0));
    }
    let present: &Value = match v {
        Value::Optional(o, _) => match o {
            Some(b) => b,
            None => return Ok(Value::Optional(None, get_value_setting(index))),
        },
        _ => v,
    };
    match resolve_internal(present, inner, false) {
        Ok(x) => Ok(Value::Optional(Some(Box::new(x)), get_value_setting(index))),
        Err(e) => Err(e),
    }
}

impl Value {
    /// Attempt to perform schema resolution on the value, with the given schema.
    pub fn resolve(self, schema: &Schema) -> (r: Result<Value, SchemaResolutionError>)
        ensures
            r is Ok <==> can_resolve(self, *schema, false),
            r is Ok ==> resolves(self, *schema, false, r->Ok_0),
    {
        resolve_internal(&self, schema, false)
    }
}

} // verus!
