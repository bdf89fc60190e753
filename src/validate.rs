//! Structural check of a value against a schema, without coercion.
use vstd::prelude::*;
use crate::value::Value;
use crate::schema::{Schema, UnionSchema};

verus! {

broadcast use vstd::std_specs::vec::group_vec_axioms;

/// `names` holds a string with the characters `t`.
pub open spec fn contains_text(names: Seq<String>, t: Seq<char>) -> bool {
    exists|k: int| 0 <= k < names.len() && (#[trigger] names[k])@ == t
}

/// `k` is the first branch of `branches` that `v` is valid against.
pub open spec fn first_valid(branches: Seq<Schema>, v: Value, k: int) -> bool {
    &&& 0 <= k < branches.len()
    &&& valid(v, branches[k])
    &&& forall|j: int| 0 <= j < k ==> !valid(v, #[trigger] branches[j])
}

/// `v` conforms to `s`.
pub open spec fn valid(v: Value, s: Schema) -> bool
    decreases v,
{
    match (v, s) {
        (Value::Null, Schema::Null) => true,
        (Value::Boolean(..), Schema::Boolean) => true,
        (Value::Int(..), Schema::Int) => true,
        (Value::Long(..), Schema::Long) => true,
        (Value::Float(..), Schema::Float) => true,
        (Value::Double(..), Schema::Double) => true,
        (Value::Bytes(..), Schema::Bytes) => true,
        (Value::String(..), Schema::String) => true,
        (Value::Fixed(n, _, _), Schema::Fixed { size, .. }) => n == size,
        (Value::String(t, _), Schema::Enum { symbols, .. }) => contains_text(symbols@, t@),
        (Value::Enum(i, t, _), Schema::Enum { symbols, .. }) => 0 <= i < symbols@.len()
            && symbols@[i as int]@ == t@,
        (Value::Union(b, _), Schema::Union(u)) => exists|k: int|
            0 <= k < u.schemas@.len() && valid(*b, #[trigger] u.schemas@[k]),
        (Value::Array(items, _), Schema::Array(inner)) => forall|k: int|
            0 <= k < items@.len() ==> valid(#[trigger] items@[k], *inner),
        (Value::Mapping(items, _), Schema::Mapping(inner)) => forall|k: int|
            0 <= k < items@.len() ==> valid(#[trigger] items@[k].1, *inner),
        (Value::Record(items, _), Schema::Record { fields, .. }) => {
            &&& items@.len() == fields@.len()
            &&& forall|k: int|
                #![trigger items@[k]]
                0 <= k < items@.len() ==> items@[k].0@ == fields@[k].name@
                    && valid(items@[k].1, fields@[k].schema)
        },
        (Value::Date(..), Schema::Date) => true,
        (Value::StringSet(..), Schema::StringSet) => true,
        (Value::LruSet(..), Schema::LruSet(_)) => true,
        (Value::Optional(o, _), Schema::Optional(inner)) => match o {
            Some(b) => valid(*b, *inner),
            None => true,
        },
        _ => false,
    }
}

pub(crate) fn symbols_contain(symbols: &Vec<String>, t: &String) -> (r: bool)
    ensures
        r == contains_text(symbols@, t@),
{
    let mut k: usize = 0;
    while k < symbols.len()
        invariant
            k <= symbols@.len(),
            forall|j: int| 0 <= j < k ==> (#[trigger] symbols@[j])@ != t@,
        decreases symbols@.len() - k,
    {
        if symbols[k] == *t {
            return true;
        }
        k += 1;
    }
    false
}

impl UnionSchema {
    /// The first branch, in declared order, that `value` is valid against.
    pub fn find_schema(&self, value: &Value) -> (r: Option<(usize, &Schema)>)
        ensures
            r is Some <==> exists|k: int| 0 <= k < self.schemas@.len()
                && valid(*value, #[trigger] self.schemas@[k]),
            match r {
                Some((k, b)) => first_valid(self.schemas@, *value, k as int)
                    && *b == self.schemas@[k as int],
                None => true,
            },
        decreases value, 1int,
    {
        let mut k: usize = 0;
        while k < self.schemas.len()
            invariant
                k <= self.schemas@.len(),
                forall|j: int| 0 <= j < k ==> !valid(*value, #[trigger] self.schemas@[j]),
            decreases self.schemas@.len() - k,
        {
            if value.validate(&self.schemas[k]) {
                return Some((k, &self.schemas[k]));
            }
            k += 1;
        }
        None
    }
}

impl Value {
    /// Validate the value against the given schema.
    pub fn validate(&self, schema: &Schema) -> (r: bool)
        ensures
            r == valid(*self, *schema),
        decreases self, 0int,
    {
        match (self, schema) {
            (Value::Null, Schema::Null) => true,
            (Value::Boolean(..), Schema::Boolean) => true,
            (Value::Int(..), Schema::Int) => true,
            (Value::Long(..), Schema::Long) => true,
            (Value::Float(..), Schema::Float) => true,
            (Value::Double(..), Schema::Double) => true,
            (Value::Bytes(..), Schema::Bytes) => true,
            (Value::String(..), Schema::String) => true,
            (Value::Fixed(n, _, _), Schema::Fixed { size, .. }) => *n == *size,
            (Value::String(t, _), Schema::Enum { symbols, .. }) => symbols_contain(symbols, t),
            (Value::Enum(i, t, _), Schema::Enum { symbols, .. }) => {
                if *i >= 0 && (*i as usize) < symbols.len() {
                    symbols[*i as usize] == *t
                } else {
                    false
                }
            },
            (Value::Union(b, _), Schema::Union(u)) => {
                proof {
                    assert(decreases_to!(*self => self->Union_0));
                }
                u.find_schema(b).is_some()
            },
            (Value::Array(items, _), Schema::Array(inner)) => {
                let mut k: usize = 0;
                while k < items.len()
                    invariant
                        *self is Array,
                        self->Array_0 == *items,
                        *schema is Array,
                        schema->Array_0 == *inner,
                        k <= items@.len(),
                        forall|j: int| 0 <= j < k ==> valid(#[trigger] items@[j], **inner),
                    decreases items@.len() - k,
                {
                    proof {
                        assert(decreases_to!(*self => self->Array_0));
                        assert(decreases_to!(*items => items@));
                        assert(decreases_to!(items@ => items@[k as int]));
                    }
                    if !items[k].validate(inner) {
                        return false;
                    }
                    k += 1;
                }
                true
            },
            (Value::Mapping(items, _), Schema::Mapping(inner)) => {
                let mut k: usize = 0;
                while k < items.len()
                    invariant
                        *self is Mapping,
                        self->Mapping_0 == *items,
                        *schema is Mapping,
                        schema->Mapping_0 == *inner,
                        k <= items@.len(),
                        forall|j: int| 0 <= j < k ==> valid(#[trigger] items@[j].1, **inner),
                    decreases items@.len() - k,
                {
                    proof {
                        assert(decreases_to!(*self => self->Mapping_0));
                        assert(decreases_to!(*items => items@));
                        assert(decreases_to!(items@ => items@[k as int]));
                        assert(decreases_to!(items@[k as int] => items@[k as int].1));
                    }
                    if !items[k].1.validate(inner) {
                        return false;
                    }
                    k += 1;
                }
                true
            },
            (Value::Record(items, _), Schema::Record { fields, .. }) => {
                if items.len() != fields.len() {
                    return false;
                }
                let mut k: usize = 0;
                while k < items.len()
                    invariant
                        *self is Record,
                        self->Record_0 == *items,
                        *schema is Record,
                        schema->fields == *fields,
                        items@.len() == fields@.len(),
                        k <= items@.len(),
                        forall|j: int|
                            #![trigger items@[j]]
                            0 <= j < k ==> items@[j].0@ == fields@[j].name@
                                && valid(items@[j].1, fields@[j].schema),
                    decreases items@.len() - k,
                {
                    proof {
                        assert(decreases_to!(*self => self->Record_0));
                        assert(decreases_to!(*items => items@));
                        assert(decreases_to!(items@ => items@[k as int]));
                        assert(decreases_to!(items@[k as int] => items@[k as int].1));
                    }
                    if !(items[k].0 == fields[k].name) {
                        return false;
                    }
                    if !items[k].1.validate(&fields[k].schema) {
                        return false;
                    }
                    k += 1;
                }
                true
            },
            (Value::Date(..), Schema::Date) => true,
            (Value::StringSet(..), Schema::StringSet) => true,
            (Value::LruSet(..), Schema::LruSet(_)) => true,
            (Value::Optional(o, _), Schema::Optional(inner)) => match o {
                Some(b) => {
                    proof {
                        assert(decreases_to!(*self => self->Optional_0));
                    }
                    b.validate(inner)
                },
                None => true,
            },
            _ => false,
        }
    }
}

} // verus!
