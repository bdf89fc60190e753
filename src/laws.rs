//! Properties of validation and resolution, stated over the specifications
//! that `Value::validate` and `Value::resolve` are proved against.
use vstd::prelude::*;
use crate::value::{setting, wf_value, Value, ValueSetting};
use crate::schema::{kind, union_branches_ok, RecordField, Schema, UnionSchema};
use crate::validate::{contains_text, first_valid, valid};
use crate::resolve::{
    can_resolve, can_resolve_case, distinct_texts, entries_of, field_source, first_text, item_text,
    last_index, lemma_last_index_range, symbol_text,
    resolves, resolves_case, same_entries, same_texts, unwrap_union,
};
use crate::text::{rfc2822_millis, rfc3339_millis};
use crate::ieee::{f32_of_int, f64_of_int};

verus! {

/// Validation is a function of the value and the schema alone: two calls on
/// the same pair return the same answer.
pub proof fn lemma_validate_deterministic(v: Value, s: Schema, first: bool, second: bool)
    requires
        first == valid(v, s),
        second == valid(v, s),
    ensures
        first == second,
{
}

/// An int widens to long, float and double without fail: the long holds the
/// same number, the float and the double the nearest value they can represent.
pub proof fn lemma_int_widening(x: i32, a: Option<ValueSetting>)
    ensures
        can_resolve(Value::Int(x, a), Schema::Long, false),
        resolves(Value::Int(x, a), Schema::Long, false, Value::Long(x as i64, None)),
        can_resolve(Value::Int(x, a), Schema::Float, false),
        resolves(Value::Int(x, a), Schema::Float, false, Value::Float(f32_of_int(x as int), None)),
        can_resolve(Value::Int(x, a), Schema::Double, false),
        resolves(Value::Int(x, a), Schema::Double, false, Value::Double(f64_of_int(x as int), None)),
{
}

/// Against a union, resolution takes the first branch, in declared order, that
/// the value (opened if it is a union itself) is valid against, and wraps in a
/// union the value resolved against that branch; when no branch accepts it,
/// resolution fails.
pub proof fn lemma_union_first_match(v: Value, u: UnionSchema, index: bool, r: Value)
    ensures
        (forall|k: int| 0 <= k < u.schemas@.len() ==> !valid(unwrap_union(v), #[trigger] u.schemas@[k]))
            ==> !can_resolve(v, Schema::Union(u), index),
        resolves(v, Schema::Union(u), index, r) ==> {
            &&& r is Union
            &&& r->Union_1 is None
            &&& exists|k: int|
                first_valid(u.schemas@, unwrap_union(v), k)
                    && resolves(unwrap_union(v), #[trigger] u.schemas@[k], false, *r->Union_0)
        },
{
}

/// Text resolves to a date exactly when it reads as an RFC 3339 or an RFC 2822
/// timestamp; the RFC 3339 reading comes first.
pub proof fn lemma_date_from_text(t: String, a: Option<ValueSetting>, index: bool, r: Value)
    ensures
        can_resolve(Value::String(t, a), Schema::Date, index) <==> (rfc3339_millis(t@) is Some
            || rfc2822_millis(t@) is Some),
        resolves(Value::String(t, a), Schema::Date, index, r) ==> r == Value::Date(
            if rfc3339_millis(t@) is Some {
                rfc3339_millis(t@)->0
            } else {
                rfc2822_millis(t@)->0
            },
            setting(index),
        ),
{
}

/// An array resolves to a string set exactly when every element is a string;
/// the set holds each of those strings once, and nothing else.
pub proof fn lemma_set_from_array(items: Vec<Value>, a: Option<ValueSetting>, index: bool, r: Value)
    ensures
        can_resolve(Value::Array(items, a), Schema::StringSet, index) <==> (forall|k: int|
            0 <= k < items@.len() ==> (#[trigger] items@[k]) is String),
        resolves(Value::Array(items, a), Schema::StringSet, index, r) ==> {
            &&& r is StringSet
            &&& distinct_texts(r->StringSet_0@)
            &&& forall|k: int|
                0 <= k < items@.len() ==> contains_text(r->StringSet_0@, (#[trigger] items@[k])->String_0@)
            &&& forall|j: int|
                0 <= j < r->StringSet_0@.len() ==> item_text(items@, (#[trigger] r->StringSet_0@[j])@)
        },
{
}

/// Against an optional schema the result is an optional that is absent exactly
/// when the source is an absent optional, and otherwise holds the present value
/// resolved against the inner schema. When the inner schema is neither an
/// optional nor a union, what it holds is never an optional: absence is not nested.
pub proof fn lemma_optional(v: Value, inner: Schema, index: bool, r: Value)
    requires
        resolves(v, Schema::Optional(Box::new(inner)), index, r),
    ensures
        r is Optional,
        r->Optional_0 is None <==> (unwrap_union(v) is Optional && unwrap_union(v)->Optional_0 is None),
        r->Optional_0 is Some ==> resolves(
            match unwrap_union(v) {
                Value::Optional(o, _) => *o->0,
                w => w,
            },
            inner,
            false,
            *r->Optional_0->0,
        ),
        r->Optional_0 is Some && !(inner is Optional) && !(inner is Union) ==> !(*r->Optional_0->0 is Optional),
{
    if r->Optional_0 is Some && !(inner is Optional) && !(inner is Union) {
        let w = unwrap_union(v);
        let x = match w {
            Value::Optional(o, _) => *o->0,
            w => w,
        };
        lemma_result_not_optional(x, inner, *r->Optional_0->0);
    }
}

proof fn lemma_result_not_optional(x: Value, s: Schema, y: Value)
    requires
        resolves(x, s, false, y),
        !(s is Optional),
        !(s is Union),
    ensures
        !(y is Optional),
{
    assert(resolves_case(unwrap_union(x), s, false, y));
}

/// Schemas with no schema nested inside them.
pub open spec fn is_leaf_schema(s: Schema) -> bool {
    !(s is Union || s is Array || s is Mapping || s is Record || s is Optional)
}

/// `a` and `b` are the same value of a leaf schema, strings and byte
/// sequences compared by content.
pub open spec fn same_leaf(a: Value, b: Value) -> bool {
    match (a, b) {
        (Value::Null, Value::Null) => true,
        (Value::Boolean(x, p), Value::Boolean(y, q)) => x == y && p == q,
        (Value::Int(x, p), Value::Int(y, q)) => x == y && p == q,
        (Value::Long(x, p), Value::Long(y, q)) => x == y && p == q,
        (Value::Float(x, p), Value::Float(y, q)) => x == y && p == q,
        (Value::Double(x, p), Value::Double(y, q)) => x == y && p == q,
        (Value::Date(x, p), Value::Date(y, q)) => x == y && p == q,
        (Value::Bytes(x, p), Value::Bytes(y, q)) => x@ == y@ && p == q,
        (Value::String(x, p), Value::String(y, q)) => x@ == y@ && p == q,
        (Value::Fixed(n, x, p), Value::Fixed(m, y, q)) => n == m && x@ == y@ && p == q,
        (Value::Enum(i, x, p), Value::Enum(j, y, q)) => i == j && x@ == y@ && p == q,
        (Value::StringSet(x, p), Value::StringSet(y, q)) => same_texts(x@, y@) && p == q,
        (Value::LruSet(x, l, p), Value::LruSet(y, m, q)) => same_entries(x@, y@) && l == m && p == q,
        _ => false,
    }
}

/// For a schema with no nested schema, what resolution produces validates
/// against that schema, and resolving it again with the same index flag
/// succeeds and gives the same value back. An enum schema is taken with at most `i32::MAX` symbols, so
/// that every position is an `i32`.
pub proof fn lemma_resolve_again_leaf(v: Value, s: Schema, index: bool, r: Value, again: Value)
    requires
        is_leaf_schema(s),
        s is Enum ==> s->symbols@.len() <= i32::MAX,
        can_resolve(v, s, index),
        resolves(v, s, index, r),
    ensures
        valid(r, s),
        can_resolve(r, s, index),
        resolves(r, s, index, again) ==> same_leaf(r, again),
{
    assert(resolves_case(unwrap_union(v), s, index, r));
    assert(can_resolve_case(unwrap_union(v), s, index));
    assert(!(r is Union));
    if resolves(r, s, index, again) {
        assert(resolves_case(r, s, index, again));
    }
}

/// A schema whose unions hold no union and no two branches of one kind,
/// whose records have distinct field names and whose enums have at most
/// `i32::MAX` symbols.
pub open spec fn plain_schema(s: Schema) -> bool
    decreases s,
{
    match s {
        Schema::Union(u) => union_branches_ok(u.schemas@) && forall|k: int|
            0 <= k < u.schemas@.len() ==> plain_schema(#[trigger] u.schemas@[k]),
        Schema::Array(inner) => plain_schema(*inner),
        Schema::Mapping(inner) => plain_schema(*inner),
        Schema::Optional(inner) => plain_schema(*inner),
        Schema::Record { fields, .. } => {
            &&& forall|k: int| 0 <= k < fields@.len() ==> plain_schema(#[trigger] fields@[k].schema)
            &&& forall|j: int, k: int|
                0 <= j < k < fields@.len() ==> (#[trigger] fields@[j]).name@ != (#[trigger] fields@[k]).name@
        },
        Schema::Enum { symbols, .. } => symbols@.len() <= i32::MAX,
        _ => true,
    }
}

/// `a` and `b` are the same value, strings and byte sequences compared by content.
pub open spec fn same_value(a: Value, b: Value) -> bool
    decreases a,
{
    match (a, b) {
        (Value::Array(x, p), Value::Array(y, q)) => {
            &&& p == q
            &&& x@.len() == y@.len()
            &&& forall|k: int| 0 <= k < x@.len() ==> same_value(#[trigger] x@[k], y@[k])
        },
        (Value::Mapping(x, p), Value::Mapping(y, q)) => {
            &&& p == q
            &&& x@.len() == y@.len()
            &&& forall|k: int|
                0 <= k < x@.len() ==> (#[trigger] x@[k]).0@ == y@[k].0@ && same_value(x@[k].1, y@[k].1)
        },
        (Value::Record(x, p), Value::Record(y, q)) => {
            &&& p == q
            &&& x@.len() == y@.len()
            &&& forall|k: int|
                0 <= k < x@.len() ==> (#[trigger] x@[k]).0@ == y@[k].0@ && same_value(x@[k].1, y@[k].1)
        },
        (Value::Optional(o, p), Value::Optional(o2, q)) => p == q && match o {
            Some(x) => o2 is Some && same_value(*x, *o2->0),
            None => o2 is None,
        },
        (Value::Union(x, p), Value::Union(y, q)) => p == q && same_value(*x, *y),
        _ => same_leaf(a, b),
    }
}

/// A value resolved against a branch of a union validates against no branch
/// of another kind, except that a string resolved as a string validates
/// against an enum exactly when the source string does.
proof fn lemma_cross_kind(w: Value, s: Schema, b: Value, t: Schema)
    requires
        valid(w, s),
        !(s is Union),
        resolves(w, s, false, b),
        valid(b, t),
        kind(t) != kind(s),
    ensures
        valid(w, t),
{
    assert(unwrap_union(w) == w);
    assert(resolves_case(w, s, false, b));
}

proof fn lemma_last_index_of_distinct(out: Seq<(String, Value)>, fields: Seq<RecordField>, k: int)
    requires
        out.len() == fields.len(),
        0 <= k < fields.len(),
        forall|i: int| 0 <= i < out.len() ==> (#[trigger] out[i]).0@ == fields[i].name@,
        forall|i: int, j: int|
            0 <= i < j < fields.len() ==> (#[trigger] fields[i]).name@ != (#[trigger] fields[j]).name@,
    ensures
        last_index(out, fields[k].name@) == k,
    decreases out.len(),
{
    if out.len() - 1 != k {
        assert(out.last().0@ == fields[out.len() - 1].name@);
        lemma_last_index_of_distinct(out.drop_last(), fields.drop_last(), k);
    }
}

/// Resolving again, against the same schema and with the same index flag, a
/// value that resolution produced gives it back, and that value validates
/// against the schema. Shown for well-formed schemas (`plain_schema`): unions
/// with no two branches of one kind and no union branch, records with
/// distinct field names, and enums whose positions are `i32`s.
#[verifier::spinoff_prover]
#[verifier::rlimit(100)]
pub proof fn lemma_resolve_again(v: Value, s: Schema, index: bool, r: Value, again: Value)
    requires
        plain_schema(s),
        can_resolve(v, s, index),
        resolves(v, s, index, r),
    ensures
        valid(r, s),
        can_resolve(r, s, index),
        resolves(r, s, index, again) ==> same_value(r, again),
    decreases s, v, 2int,
{
    let w = if s is Union { v } else { unwrap_union(v) };
    assert(resolves_case(w, s, index, r));
    assert(can_resolve_case(w, s, index));
    match s {
        Schema::Union(u) => {
            let w2 = unwrap_union(v);
            let b = *r->Union_0;
            let k = choose|k: int| first_valid(u.schemas@, w2, k) && resolves(w2, #[trigger] u.schemas@[k], false, b);
            assert(exists|k: int| first_valid(u.schemas@, w2, k) && can_resolve(w2, #[trigger] u.schemas@[k], false));
            let k2 = choose|k: int| first_valid(u.schemas@, w2, k) && can_resolve(w2, #[trigger] u.schemas@[k], false);
            assert(k2 == k) by {
                if k2 < k {
                    assert(!valid(w2, u.schemas@[k2]));
                } else if k < k2 {
                    assert(!valid(w2, u.schemas@[k]));
                }
            }
            assert(plain_schema(u.schemas@[k]));
            lemma_resolve_again(w2, u.schemas@[k], false, b, b);
            assert forall|j: int| 0 <= j < k implies !valid(b, #[trigger] u.schemas@[j]) by {
                if valid(b, u.schemas@[j]) {
                    assert(kind(u.schemas@[j]) != kind(u.schemas@[k]));
                    lemma_cross_kind(w2, u.schemas@[k], b, u.schemas@[j]);
                }
            }
            assert(first_valid(u.schemas@, b, k));
            assert(unwrap_union(r) == b);
            if resolves(r, s, index, again) {
                assert(resolves_case(r, s, index, again));
                let b2 = *again->Union_0;
                let k3 = choose|k: int| first_valid(u.schemas@, b, k) && resolves(b, #[trigger] u.schemas@[k], false, b2);
                assert(k3 == k) by {
                    if k3 < k {
                        assert(!valid(b, u.schemas@[k3]));
                    } else if k < k3 {
                        assert(!valid(b, u.schemas@[k]));
                    }
                }
                lemma_resolve_again(w2, u.schemas@[k], false, b, b2);
            }
        },
        Schema::Array(inner) => {
            let items = w->Array_0@;
            let out = r->Array_0@;
            assert forall|k: int| 0 <= k < out.len() implies valid(#[trigger] out[k], *inner)
                && can_resolve(out[k], *inner, index) by {
                lemma_resolve_again(items[k], *inner, index, out[k], out[k]);
            }
            if resolves(r, s, index, again) {
                assert(resolves_case(r, s, index, again));
                assert forall|k: int| 0 <= k < out.len() implies same_value(#[trigger] out[k], again->Array_0@[k]) by {
                    lemma_resolve_again(items[k], *inner, index, out[k], again->Array_0@[k]);
                }
            }
        },
        Schema::Mapping(inner) => {
            let items = w->Mapping_0@;
            let out = r->Mapping_0@;
            assert forall|k: int| 0 <= k < out.len() implies valid((#[trigger] out[k]).1, *inner)
                && can_resolve(out[k].1, *inner, index) by {
                lemma_resolve_again(items[k].1, *inner, index, out[k].1, out[k].1);
            }
            if resolves(r, s, index, again) {
                assert(resolves_case(r, s, index, again));
                assert forall|k: int| 0 <= k < out.len() implies (#[trigger] out[k]).0@ == again->Mapping_0@[k].0@
                    && same_value(out[k].1, again->Mapping_0@[k].1) by {
                    lemma_resolve_again(items[k].1, *inner, index, out[k].1, again->Mapping_0@[k].1);
                }
            }
        },
        Schema::Optional(inner) => {
            if r->Optional_0 is Some {
                let x = *r->Optional_0->0;
                let src = match w {
                    Value::Optional(o, _) => *o->0,
                    _ => w,
                };
                lemma_resolve_again(src, *inner, false, x, x);
                if resolves(r, s, index, again) {
                    assert(resolves_case(r, s, index, again));
                    lemma_resolve_again(src, *inner, false, x, *again->Optional_0->0);
                }
            } else {
                if resolves(r, s, index, again) {
                    assert(resolves_case(r, s, index, again));
                }
            }
        },
        Schema::Record { .. } => {
            lemma_resolve_again_record(v, s, index, r, again);
        },
        _ => {
            lemma_resolve_again_leaf(v, s, index, r, again);
        },
    }
}

proof fn lemma_resolve_again_field(v: Value, s: Schema, index: bool, r: Value, k: int)
    requires
        s is Record,
        plain_schema(s),
        can_resolve_case(unwrap_union(v), s, index),
        resolves_case(unwrap_union(v), s, index, r),
        0 <= k < s->fields@.len(),
    ensures
        valid(r->Record_0@[k].1, s->fields@[k].schema),
        can_resolve(r->Record_0@[k].1, s->fields@[k].schema, s->fields@[k].index),
        forall|y: Value|
            resolves(r->Record_0@[k].1, s->fields@[k].schema, s->fields@[k].index, y) ==> same_value(
                r->Record_0@[k].1,
                y,
            ),
    decreases s, v, 0int,
{
    let w = unwrap_union(v);
    let fields = s->fields@;
    let p = entries_of(w);
    let f = fields[k];
    let x = r->Record_0@[k].1;
    let j = field_source(p, fields, k);
    assert(decreases_to!(s => s->fields));
    assert(plain_schema(f.schema));
    if 0 <= j < p.len() {
        lemma_resolve_again(p[j].1, f.schema, f.index, x, x);
        assert forall|y: Value| resolves(x, f.schema, f.index, y) implies same_value(x, y) by {
            lemma_resolve_again(p[j].1, f.schema, f.index, x, y);
        }
    } else {
        lemma_resolve_again(f.default->0, f.schema, f.index, x, x);
        assert forall|y: Value| resolves(x, f.schema, f.index, y) implies same_value(x, y) by {
            lemma_resolve_again(f.default->0, f.schema, f.index, x, y);
        }
    }
}

proof fn lemma_resolve_again_record(v: Value, s: Schema, index: bool, r: Value, again: Value)
    requires
        s is Record,
        plain_schema(s),
        can_resolve(v, s, index),
        resolves(v, s, index, r),
    ensures
        valid(r, s),
        can_resolve(r, s, index),
        resolves(r, s, index, again) ==> same_value(r, again),
    decreases s, v, 1int,
{
    let w = unwrap_union(v);
    assert(resolves_case(w, s, index, r));
    assert(can_resolve_case(w, s, index));
    let fields = s->fields@;
    let out = r->Record_0@;
    assert forall|k: int| 0 <= k < fields.len() implies field_source(out, fields, k) == k by {
        lemma_last_index_of_distinct(out, fields, k);
    }
    assert forall|k: int| 0 <= k < fields.len() implies valid((#[trigger] out[k]).1, fields[k].schema)
        && can_resolve(out[k].1, fields[k].schema, fields[k].index) by {
        lemma_resolve_again_field(v, s, index, r, k);
    }
    if resolves(r, s, index, again) {
        assert(resolves_case(r, s, index, again));
        let out2 = again->Record_0@;
        assert forall|k: int| 0 <= k < out.len() implies (#[trigger] out[k]).0@ == out2[k].0@
            && same_value(out[k].1, out2[k].1) by {
            lemma_resolve_again_field(v, s, index, r, k);
        }
    }
}

/// Every default value held anywhere in the schema is well formed.
pub open spec fn defaults_wf(s: Schema) -> bool
    decreases s,
{
    match s {
        Schema::Union(u) => forall|k: int| 0 <= k < u.schemas@.len() ==> defaults_wf(#[trigger] u.schemas@[k]),
        Schema::Array(inner) => defaults_wf(*inner),
        Schema::Mapping(inner) => defaults_wf(*inner),
        Schema::Optional(inner) => defaults_wf(*inner),
        Schema::Record { fields, .. } => forall|k: int|
            0 <= k < fields@.len() ==> defaults_wf((#[trigger] fields@[k]).schema) && match fields@[k].default {
                Some(d) => wf_value(d),
                None => true,
            },
        _ => true,
    }
}

/// Resolution keeps the invariant of values: from a well-formed value, against
/// a schema whose defaults are well formed, it yields a well-formed value.
pub proof fn lemma_resolution_keeps_wf(v: Value, s: Schema, index: bool, r: Value)
    requires
        wf_value(v),
        defaults_wf(s),
        can_resolve(v, s, index),
        resolves(v, s, index, r),
    ensures
        wf_value(r),
    decreases s, v,
{
    let w = if s is Union { v } else { unwrap_union(v) };
    assert(wf_value(w));
    assert(resolves_case(w, s, index, r));
    assert(can_resolve_case(w, s, index));
    match s {
        Schema::Union(u) => {
            let w2 = unwrap_union(v);
            assert(wf_value(w2));
            let b = *r->Union_0;
            assert(exists|k: int| first_valid(u.schemas@, w2, k) && resolves(w2, #[trigger] u.schemas@[k], false, b));
            let k = choose|k: int| first_valid(u.schemas@, w2, k) && resolves(w2, #[trigger] u.schemas@[k], false, b);
            assert(exists|k: int| first_valid(u.schemas@, w2, k) && can_resolve(w2, #[trigger] u.schemas@[k], false));
            let k2 = choose|k: int| first_valid(u.schemas@, w2, k) && can_resolve(w2, #[trigger] u.schemas@[k], false);
            assert(k2 == k) by {
                if k2 < k {
                    assert(!valid(w2, u.schemas@[k2]));
                } else if k < k2 {
                    assert(!valid(w2, u.schemas@[k]));
                }
            }
            assert(can_resolve(w2, u.schemas@[k], false));
            assert(defaults_wf(u.schemas@[k]));
            lemma_resolution_keeps_wf(w2, u.schemas@[k], false, b);
        },
        Schema::Array(inner) => {
            let items = w->Array_0@;
            assert forall|k: int| 0 <= k < r->Array_0@.len() implies wf_value(#[trigger] r->Array_0@[k]) by {
                lemma_resolution_keeps_wf(items[k], *inner, index, r->Array_0@[k]);
            }
        },
        Schema::Mapping(inner) => {
            let items = w->Mapping_0@;
            assert forall|k: int| 0 <= k < r->Mapping_0@.len() implies wf_value((#[trigger] r->Mapping_0@[k]).1) by {
                lemma_resolution_keeps_wf(items[k].1, *inner, index, r->Mapping_0@[k].1);
            }
            let out = r->Mapping_0@;
            assert forall|i: int, j: int| 0 <= i < j < out.len() implies (#[trigger] out[i]).0@ != (#[trigger] out[j]).0@ by {
                assert(out[i].0@ == items[i].0@);
                assert(out[j].0@ == items[j].0@);
            }
        },
        Schema::Record { fields, .. } => {
            let p = entries_of(w);
            assert forall|k: int| 0 <= k < r->Record_0@.len() implies wf_value((#[trigger] r->Record_0@[k]).1) by {
                let f = fields@[k];
                let j = field_source(p, fields@, k);
                if 0 <= j < p.len() {
                    lemma_resolution_keeps_wf(p[j].1, f.schema, f.index, r->Record_0@[k].1);
                } else {
                    lemma_resolution_keeps_wf(f.default->0, f.schema, f.index, r->Record_0@[k].1);
                }
            }
        },
        Schema::Optional(inner) => {
            if r->Optional_0 is Some {
                let src = match w {
                    Value::Optional(o, _) => *o->0,
                    _ => w,
                };
                lemma_resolution_keeps_wf(src, *inner, false, *r->Optional_0->0);
            }
        },
        Schema::StringSet => {
            let out = r->StringSet_0@;
            if w is StringSet {
                let src = w->StringSet_0@;
                assert forall|i: int, j: int| 0 <= i < j < out.len() implies (#[trigger] out[i])@ != (#[trigger] out[j])@ by {
                    assert(out[i]@ == src[i]@);
                    assert(out[j]@ == src[j]@);
                }
            } else {
                assert(distinct_texts(out));
            }
        },
        Schema::LruSet(_) => {
            let out = r->LruSet_0@;
            if w is LruSet {
                let src = w->LruSet_0@;
                assert forall|i: int, j: int| 0 <= i < j < out.len() implies (#[trigger] out[i]).0@ != (#[trigger] out[j]).0@ by {
                    assert(out[i].0@ == src[i].0@);
                    assert(out[j].0@ == src[j].0@);
                }
            } else {
                let src = w->Mapping_0@;
                assert forall|i: int, j: int| 0 <= i < j < out.len() implies (#[trigger] out[i]).0@ != (#[trigger] out[j]).0@ by {
                    assert(out[i].0@ == src[i].0@);
                    assert(out[j].0@ == src[j].0@);
                }
            }
        },
        _ => {
        },
    }
}

/// Every enum inside the schema has at most `i32::MAX` symbols, so that each
/// position is an `i32`.
pub open spec fn enums_fit(s: Schema) -> bool
    decreases s,
{
    match s {
        Schema::Union(u) => forall|k: int| 0 <= k < u.schemas@.len() ==> enums_fit(#[trigger] u.schemas@[k]),
        Schema::Array(inner) => enums_fit(*inner),
        Schema::Mapping(inner) => enums_fit(*inner),
        Schema::Optional(inner) => enums_fit(*inner),
        Schema::Record { fields, .. } => forall|k: int|
            0 <= k < fields@.len() ==> enums_fit((#[trigger] fields@[k]).schema),
        Schema::Enum { symbols, .. } => symbols@.len() <= i32::MAX,
        _ => true,
    }
}

/// What resolution produces validates against the schema it was resolved
/// against, at every depth (unions included).
pub proof fn lemma_resolved_validates(v: Value, s: Schema, index: bool, r: Value)
    requires
        enums_fit(s),
        can_resolve(v, s, index),
        resolves(v, s, index, r),
    ensures
        valid(r, s),
    decreases s, v,
{
    let w = if s is Union { v } else { unwrap_union(v) };
    assert(resolves_case(w, s, index, r));
    assert(can_resolve_case(w, s, index));
    match s {
        Schema::Union(u) => {
            let w2 = unwrap_union(v);
            let b = *r->Union_0;
            let k = choose|k: int| first_valid(u.schemas@, w2, k) && resolves(w2, #[trigger] u.schemas@[k], false, b);
            assert(exists|k: int| first_valid(u.schemas@, w2, k) && can_resolve(w2, #[trigger] u.schemas@[k], false));
            let k2 = choose|k: int| first_valid(u.schemas@, w2, k) && can_resolve(w2, #[trigger] u.schemas@[k], false);
            assert(k2 == k) by {
                if k2 < k {
                    assert(!valid(w2, u.schemas@[k2]));
                } else if k < k2 {
                    assert(!valid(w2, u.schemas@[k]));
                }
            }
            assert(enums_fit(u.schemas@[k]));
            lemma_resolved_validates(w2, u.schemas@[k], false, b);
            assert(valid(b, u.schemas@[k]));
        },
        Schema::Array(inner) => {
            let items = w->Array_0@;
            assert forall|k: int| 0 <= k < r->Array_0@.len() implies valid(#[trigger] r->Array_0@[k], *inner) by {
                lemma_resolved_validates(items[k], *inner, index, r->Array_0@[k]);
            }
        },
        Schema::Mapping(inner) => {
            let items = w->Mapping_0@;
            assert forall|k: int| 0 <= k < r->Mapping_0@.len() implies valid((#[trigger] r->Mapping_0@[k]).1, *inner) by {
                lemma_resolved_validates(items[k].1, *inner, index, r->Mapping_0@[k].1);
            }
        },
        Schema::Record { fields, .. } => {
            let p = entries_of(w);
            let out = r->Record_0@;
            assert forall|k: int| 0 <= k < out.len() implies (#[trigger] out[k]).0@ == fields@[k].name@
                && valid(out[k].1, fields@[k].schema) by {
                let f = fields@[k];
                let j = field_source(p, fields@, k);
                if 0 <= j < p.len() {
                    lemma_resolved_validates(p[j].1, f.schema, f.index, out[k].1);
                } else {
                    lemma_resolved_validates(f.default->0, f.schema, f.index, out[k].1);
                }
            }
        },
        Schema::Optional(inner) => {
            if r->Optional_0 is Some {
                let src = match w {
                    Value::Optional(o, _) => *o->0,
                    _ => w,
                };
                lemma_resolved_validates(src, *inner, false, *r->Optional_0->0);
            }
        },
        _ => {
            lemma_resolve_again_leaf(v, s, index, r, r);
        },
    }
}

/// Against a record schema, resolution yields one field per schema field, in
/// schema order and under its name, stamped with the record's own flag; a
/// field the source lacks takes its declared default, resolved against the
/// field's schema with the field's flag, and without a default resolution fails.
pub proof fn lemma_record_fields(v: Value, s: Schema, index: bool, r: Value)
    requires
        s is Record,
    ensures
        can_resolve(v, s, index) && resolves(v, s, index, r) ==> {
            let w = unwrap_union(v);
            let fields = s->fields@;
            let out = r->Record_0@;
            &&& r is Record
            &&& r->Record_1 == setting(s->Record_name.index)
            &&& out.len() == fields.len()
            &&& forall|k: int| 0 <= k < fields.len() ==> {
                let f = #[trigger] fields[k];
                let j = field_source(entries_of(w), fields, k);
                &&& out[k].0@ == f.name@
                &&& !(0 <= j < entries_of(w).len()) ==> f.default is Some
                    && resolves(f.default->0, f.schema, f.index, out[k].1)
            }
        },
        (forall|k: int| 0 <= k < s->fields@.len() ==> field_source(entries_of(unwrap_union(v)), s->fields@, k) < 0
            && (#[trigger] s->fields@[k]).default is None) && s->fields@.len() > 0 ==> !can_resolve(v, s, index),
{
    if can_resolve(v, s, index) && resolves(v, s, index, r) {
        assert(resolves_case(unwrap_union(v), s, index, r));
        assert(can_resolve_case(unwrap_union(v), s, index));
    }
    if s->fields@.len() > 0 && can_resolve(v, s, index) {
        assert(can_resolve_case(unwrap_union(v), s, index));
        lemma_last_index_range(entries_of(unwrap_union(v)), s->fields@[0].name@);
    }
}

/// Against an enum schema, a string resolves exactly when it names a symbol,
/// and yields the enum value at the first position of that symbol; an enum
/// value is looked up again by its symbol when its position is in range.
pub proof fn lemma_enum_by_name(v: Value, s: Schema, index: bool, r: Value)
    requires
        s is Enum,
    ensures
        v is String ==> (can_resolve(v, s, index) <==> contains_text(s->symbols@, v->String_0@)),
        v is Enum ==> (can_resolve(v, s, index) <==> 0 <= v->Enum_0 < (s->symbols@.len() as i32)
            && contains_text(s->symbols@, v->Enum_1@)),
        (v is String || v is Enum) && resolves(v, s, index, r) ==> {
            &&& r is Enum
            &&& r->Enum_1@ == symbol_text(v)
            &&& r->Enum_2 == setting(index)
            &&& exists|k: int| #[trigger] first_text(s->symbols@, symbol_text(v), k) && r->Enum_0 == k as i32
        },
{
}

} // verus!
