//! Building values from native data: the `ToAvro` conversions and the
//! `Record` builder.
use vstd::prelude::*;
use crate::value::{LruValue, Value};
use crate::schema::{RecordField, Schema};

verus! {

/// Position of the first field named `name`, if any.
pub open spec fn first_text_of_fields(fields: Seq<RecordField>, name: Seq<char>) -> Option<int> {
    if exists|k: int| is_first_named(fields, name, k) {
        Some(choose|k: int| is_first_named(fields, name, k))
    } else {
        None
    }
}

/// `k` is the position of the first field named `name`.
pub open spec fn is_first_named(fields: Seq<RecordField>, name: Seq<char>, k: int) -> bool {
    &&& 0 <= k < fields.len()
    &&& fields[k].name@ == name
    &&& forall|j: int| 0 <= j < k ==> (#[trigger] fields[j]).name@ != name
}

/// Native data that converts to a value.
pub trait ToAvro: Sized {
    /// `r` is the value that `self` converts to.
    spec fn converts_to(&self, r: Value) -> bool;

    /// Transforms this data into a value.
    fn avro(self) -> (r: Value)
        ensures
            self.converts_to(r),
    ;
}

impl ToAvro for bool {
    open spec fn converts_to(&self, r: Value) -> bool {
        r == Value::Boolean(*self, None)
    }

    fn avro(self) -> (r: Value) {
        Value::Boolean(self, None)
    }
}

impl ToAvro for i32 {
    open spec fn converts_to(&self, r: Value) -> bool {
        r == Value::Int(*self, None)
    }

    fn avro(self) -> (r: Value) {
        Value::Int(self, None)
    }
}

impl ToAvro for i64 {
    open spec fn converts_to(&self, r: Value) -> bool {
        r == Value::Long(*self, None)
    }

    fn avro(self) -> (r: Value) {
        Value::Long(self, None)
    }
}

impl ToAvro for usize {
    open spec fn converts_to(&self, r: Value) -> bool {
        r == Value::Long(*self as i64, None)
    }

    fn avro(self) -> (r: Value) {
        Value::Long(self as i64, None)
    }
}

impl ToAvro for String {
    open spec fn converts_to(&self, r: Value) -> bool {
        r is String && r->String_0@ == self@ && r->String_1 is None
    }

    fn avro(self) -> (r: Value) {
        Value::String(self, None)
    }
}

impl<'a> ToAvro for &'a str {
    open spec fn converts_to(&self, r: Value) -> bool {
        r is String && r->String_0@ == (*self)@ && r->String_1 is None
    }

    fn avro(self) -> (r: Value) {
        Value::String(self.to_owned(), None)
    }
}

impl<'a> ToAvro for &'a [u8] {
    open spec fn converts_to(&self, r: Value) -> bool {
        r is Bytes && r->Bytes_0@ == (*self)@ && r->Bytes_1 is None
    }

    fn avro(self) -> (r: Value) {
        Value::Bytes(vstd::slice::slice_to_vec(self), None)
    }
}

impl ToAvro for () {
    open spec fn converts_to(&self, r: Value) -> bool {
        r is Null
    }

    fn avro(self) -> (r: Value) {
        Value::Null
    }
}

impl ToAvro for Value {
    open spec fn converts_to(&self, r: Value) -> bool {
        r == *self
    }

    fn avro(self) -> (r: Value) {
        self
    }
}

impl<T: ToAvro> ToAvro for Option<T> {
    /// An option becomes a union: of the converted data, or of null.
    open spec fn converts_to(&self, r: Value) -> bool {
        &&& r is Union
        &&& r->Union_1 is None
        &&& match self {
            Some(x) => x.converts_to(*r->Union_0),
            None => *r->Union_0 is Null,
        }
    }

    fn avro(self) -> (r: Value) {
        let v = match self {
            Some(x) => x.avro(),
            None => Value::Null,
        };
        Value::Union(Box::new(v), None)
    }
}

impl<T: ToAvro> ToAvro for Vec<(String, T)> {
    /// String-keyed entries become a map with the same keys, in order, each
    /// value converted.
    open spec fn converts_to(&self, r: Value) -> bool {
        &&& r is Mapping
        &&& r->Mapping_1 is None
        &&& r->Mapping_0@.len() == self@.len()
        &&& forall|k: int|
            0 <= k < self@.len() ==> (#[trigger] self@[k]).0@ == r->Mapping_0@[k].0@ && self@[k].1.converts_to(
                r->Mapping_0@[k].1,
            )
    }

    fn avro(self) -> (r: Value) {
        let ghost whole = self@;
        let mut rest = self;
        let mut out: Vec<(String, Value)> = Vec::new();
        while rest.len() > 0
            invariant
                out@.len() + rest@.len() == whole.len(),
                rest@ == whole.subrange(out@.len() as int, whole.len() as int),
                forall|k: int|
                    0 <= k < out@.len() ==> (#[trigger] whole[k]).0@ == out@[k].0@ && whole[k].1.converts_to(
                        out@[k].1,
                    ),
            decreases rest@.len(),
        {
            let (key, value) = rest.remove(0);
            proof {
                assert(whole[out@.len() as int] == (key, value));
            }
            out.push((key, value.avro()));
            proof {
                assert(rest@ =~= whole.subrange(out@.len() as int, whole.len() as int));
            }
        }
        Value::Mapping(out, None)
    }
}

impl ToAvro for LruValue {
    /// An LRU entry becomes a record of its two fields, as longs.
    open spec fn converts_to(&self, r: Value) -> bool {
        &&& r is Record
        &&& r->Record_1 is None
        &&& r->Record_0@.len() == 2
        &&& r->Record_0@[0].0@ == seq!['a', 'c', 'c', 'e', 's', 's', '_', 't', 'i', 'm', 'e']
        &&& r->Record_0@[0].1 == Value::Long(self.access_time, None)
        &&& r->Record_0@[1].0@ == seq!['c', 'o', 'u', 'n', 't']
        &&& r->Record_0@[1].1 == Value::Long(self.count, None)
    }

    fn avro(self) -> (r: Value) {
        proof {
            reveal_strlit("access_time");
            reveal_strlit("count");
        }
        let mut fields: Vec<(String, Value)> = Vec::new();
        fields.push(("access_time".to_owned(), Value::Long(self.access_time, None)));
        fields.push(("count".to_owned(), Value::Long(self.count, None)));
        assert(fields@[0].0@ =~= seq!['a', 'c', 'c', 'e', 's', 's', '_', 't', 'i', 'm', 'e']);
        assert(fields@[1].0@ =~= seq!['c', 'o', 'u', 'n', 't']);
        Value::Record(fields, None)
    }
}

/// Utility to build record values for a given record schema.
pub struct Record<'a> {
    /// The fields, in the order of the schema; an unset field holds null.
    pub fields: Vec<(String, Value)>,
    /// The fields of the schema, borrowed from it to look names up.
    pub schema_fields: &'a Vec<RecordField>,
}

impl<'a> Record<'a> {
    /// The fields of the schema that this record was made for.
    pub open spec fn schema_fields(&self) -> Seq<RecordField> {
        self.schema_fields@
    }

    /// There is one field for each field of the schema.
    pub open spec fn wf(&self) -> bool {
        self.fields@.len() == self.schema_fields().len()
    }

    /// Create a record for a record schema; `None` for any other schema.
    pub fn new(schema: &'a Schema) -> (r: Option<Record<'a>>)
        ensures
            r is Some <==> schema is Record,
            r is Some ==> {
                let rec = r->0;
                &&& rec.wf()
                &&& rec.schema_fields() == schema->fields@
                &&& forall|k: int|
                    0 <= k < rec.fields@.len() ==> (#[trigger] rec.fields@[k]).0@ == schema->fields@[k].name@
                        && rec.fields@[k].1 is Null
            },
    {
        match schema {
            Schema::Record { fields: schema_fields, .. } => {
                let mut fields: Vec<(String, Value)> = Vec::new();
                let mut k: usize = 0;
                while k < schema_fields.len()
                    invariant
                        k <= schema_fields@.len(),
                        fields@.len() == k,
                        forall|j: int|
                            0 <= j < k ==> (#[trigger] fields@[j]).0@ == schema_fields@[j].name@
                                && fields@[j].1 is Null,
                    decreases schema_fields@.len() - k,
                {
                    fields.push((schema_fields[k].name.clone(), Value::Null));
                    k += 1;
                }
                Some(Record { fields, schema_fields })
            },
            _ => None,
        }
    }

    /// Put converted data in the first field of the schema named `field`.
    /// Nothing changes when the schema has no such field; the value is not
    /// checked against the field's schema.
    pub fn put<V: ToAvro>(&mut self, field: &str, value: V)
        requires
            old(self).wf(),
        ensures
            final(self).wf(),
            final(self).schema_fields() == old(self).schema_fields(),
            final(self).fields@.len() == old(self).fields@.len(),
            match first_text_of_fields(old(self).schema_fields(), field@) {
                Some(k) => {
                    &&& forall|j: int|
                        0 <= j < old(self).fields@.len() && j != k ==> final(self).fields@[j]
                            == #[trigger] old(self).fields@[j]
                    &&& final(self).fields@[k].0 == old(self).fields@[k].0
                    &&& value.converts_to(final(self).fields@[k].1)
                },
                None => final(self).fields@ == old(self).fields@,
            },
    {
        let wanted = field.to_owned();
        let mut k: usize = 0;
        while k < self.schema_fields.len()
            invariant
                self.wf(),
                *self == *old(self),
                wanted@ == field@,
                k <= self.schema_fields@.len(),
                forall|j: int| 0 <= j < k ==> (#[trigger] self.schema_fields@[j]).name@ != field@,
            decreases self.schema_fields@.len() - k,
        {
            if self.schema_fields[k].name == wanted {
                assert(is_first_named(self.schema_fields@, field@, k as int));
                assert(first_text_of_fields(self.schema_fields@, field@) == Some(k as int));
                let name = self.fields[k].0.clone();
                self.fields[k] = (name, value.avro());
                return;
            }
            k += 1;
        }
        assert(first_text_of_fields(self.schema_fields@, field@) is None);
    }
}

impl<'a> ToAvro for Record<'a> {
    open spec fn converts_to(&self, r: Value) -> bool {
        &&& r is Record
        &&& r->Record_0 == self.fields
        &&& r->Record_1 is None
    }

    fn avro(self) -> (r: Value) {
        Value::Record(self.fields, None)
    }
}

} // verus!
