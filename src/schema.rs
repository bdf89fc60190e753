//! The shapes that values are validated and resolved against.
use vstd::prelude::*;
use crate::value::{LruLimit, Value};

verus! {

/// The name of a named schema, with its index flag.
#[derive(Clone, Debug)]
pub struct Name {
    pub name: String,
    pub index: bool,
}

impl Name {
    pub fn new(name: &str) -> (r: Name)
        ensures
            r.name@ == name@,
            !r.index,
    {
        Name { name: name.to_owned(), index: false }
    }
}

#[derive(Clone, Copy, Debug, PartialEq, Eq)]
pub enum RecordFieldOrder {
    Ascending,
    Descending,
    Ignore,
}

/// One field of a record schema.
#[derive(Debug)]
pub struct RecordField {
    pub name: String,
    pub doc: Option<String>,
    pub default: Option<Value>,
    pub schema: Schema,
    pub order: RecordFieldOrder,
    pub position: usize,
    pub index: bool,
}

/// The branches of a union schema, in declared order.
#[derive(Debug)]
pub struct UnionSchema {
    pub schemas: Vec<Schema>,
}

#[derive(Debug)]
pub enum Schema {
    Null,
    Boolean,
    Int,
    Long,
    Float,
    Double,
    Bytes,
    String,
    Fixed { name: Name, size: usize },
    Enum { name: Name, doc: Option<String>, symbols: Vec<String> },
    Union(UnionSchema),
    Array(Box<Schema>),
    Mapping(Box<Schema>),
    Record { name: Name, doc: Option<String>, fields: Vec<RecordField> },
    Date,
    StringSet,
    LruSet(LruLimit),
    Optional(Box<Schema>),
}

/// The shape of a schema, as a number.
pub open spec fn kind(s: Schema) -> int {
    match s {
        Schema::Null => 0,
        Schema::Boolean => 1,
        Schema::Int => 2,
        Schema::Long => 3,
        Schema::Float => 4,
        Schema::Double => 5,
        Schema::Bytes => 6,
        Schema::String => 7,
        Schema::Fixed { .. } => 8,
        Schema::Enum { .. } => 9,
        Schema::Union(_) => 10,
        Schema::Array(_) => 11,
        Schema::Mapping(_) => 12,
        Schema::Record { .. } => 13,
        Schema::Date => 14,
        Schema::StringSet => 15,
        Schema::LruSet(_) => 16,
        Schema::Optional(_) => 17,
    }
}

/// The branches of a union: none of them a union, no two of the same kind.
pub open spec fn union_branches_ok(schemas: Seq<Schema>) -> bool {
    &&& forall|k: int| 0 <= k < schemas.len() ==> !((#[trigger] schemas[k]) is Union)
    &&& forall|i: int, j: int|
        0 <= i < j < schemas.len() ==> kind(#[trigger] schemas[i]) != kind(#[trigger] schemas[j])
}

fn kind_of(s: &Schema) -> (r: u8)
    ensures
        r as int == kind(*s),
{
    match s {
        Schema::Null => 0,
        Schema::Boolean => 1,
        Schema::Int => 2,
        Schema::Long => 3,
        Schema::Float => 4,
        Schema::Double => 5,
        Schema::Bytes => 6,
        Schema::String => 7,
        Schema::Fixed { .. } => 8,
        Schema::Enum { .. } => 9,
        Schema::Union(_) => 10,
        Schema::Array(_) => 11,
        Schema::Mapping(_) => 12,
        Schema::Record { .. } => 13,
        Schema::Date => 14,
        Schema::StringSet => 15,
        Schema::LruSet(_) => 16,
        Schema::Optional(_) => 17,
    }
}

impl UnionSchema {
    /// A union of the given branches; `None` when a branch is itself a union
    /// or two branches have the same kind.
    pub fn new(schemas: Vec<Schema>) -> (r: Option<UnionSchema>)
        ensures
            r is Some <==> union_branches_ok(schemas@),
            r is Some ==> r->0.schemas@ == schemas@,
    {
        let mut i: usize = 0;
        while i < schemas.len()
            invariant
                i <= schemas@.len(),
                forall|k: int| 0 <= k < i ==> !((#[trigger] schemas@[k]) is Union),
                forall|a: int, b: int|
                    0 <= a < b < i ==> kind(#[trigger] schemas@[a]) != kind(#[trigger] schemas@[b]),
            decreases schemas@.len() - i,
        {
            let ki = kind_of(&schemas[i]);
            if ki == 10 {
                return None;
            }
            let mut j: usize = 0;
            while j < i
                invariant
                    i < schemas@.len(),
                    j <= i,
                    ki as int == kind(schemas@[i as int]),
                    forall|a: int| 0 <= a < j ==> kind(#[trigger] schemas@[a]) != kind(schemas@[i as int]),
                decreases i - j,
            {
                if kind_of(&schemas[j]) == ki {
                    return None;
                }
                j += 1;
            }
            i += 1;
        }
        Some(UnionSchema { schemas })
    }
}

} // verus!
