//! The runtime representation of Avro data.
use vstd::prelude::*;

verus! {

/// Describes errors happened while performing schema resolution on Avro data.
#[derive(Debug)]
pub struct SchemaResolutionError(pub String);

impl SchemaResolutionError {
    pub fn new(msg: &str) -> (r: SchemaResolutionError)
        ensures
            r.0@ == msg@,
    {
        SchemaResolutionError(msg.to_owned())
    }

    /// The human-readable description of the failure.
    pub fn message(&self) -> (r: String)
        ensures
            r@ == self.0@,
    {
        self.0.clone()
    }
}

/// Per-value encoding hint: encode through an index rather than literally.
#[derive(Clone, Copy, Debug, PartialEq, Eq)]
pub struct ValueSetting {
    pub index: bool,
}

/// The eviction bound that an LRU set is kept to.
#[derive(Clone, Copy, Debug, PartialEq, Eq)]
pub struct LruLimit {
    pub limit: u64,
}

/// Recency and frequency of one key of an LRU set.
#[derive(Clone, Copy, Debug, PartialEq, Eq)]
pub struct LruValue {
    pub access_time: i64,
    pub count: i64,
}

impl LruValue {
    pub fn new(access_time: i64, count: i64) -> (r: LruValue)
        ensures
            r.access_time == access_time,
            r.count == count,
    {
        LruValue { access_time, count }
    }
}

/// Represents any valid Avro value.
///
/// Floating-point payloads are held as their IEEE 754 bit patterns. Maps,
/// records and LRU sets are sequences of (key, value) pairs, sets sequences
/// of strings; `wf_value` states that map keys and set members are distinct.
#[derive(Debug, PartialEq)]
pub enum Value {
    Null,
    Boolean(bool, Option<ValueSetting>),
    Int(i32, Option<ValueSetting>),
    Long(i64, Option<ValueSetting>),
    Float(u32, Option<ValueSetting>),
    Double(u64, Option<ValueSetting>),
    Bytes(Vec<u8>, Option<ValueSetting>),
    String(String, Option<ValueSetting>),
    /// Declared size and content.
    Fixed(usize, Vec<u8>, Option<ValueSetting>),
    /// Position of the symbol in its schema, and the symbol.
    Enum(i32, String, Option<ValueSetting>),
    Union(Box<Value>, Option<ValueSetting>),
    Array(Vec<Value>, Option<ValueSetting>),
    Mapping(Vec<(String, Value)>, Option<ValueSetting>),
    Record(Vec<(String, Value)>, Option<ValueSetting>),
    /// Milliseconds since the Unix epoch.
    Date(i64, Option<ValueSetting>),
    StringSet(Vec<String>, Option<ValueSetting>),
    LruSet(Vec<(String, LruValue)>, LruLimit, Option<ValueSetting>),
    Optional(Option<Box<Value>>, Option<ValueSetting>),
}

/// No two pairs share a key.
pub open spec fn distinct_keys<X>(pairs: Seq<(String, X)>) -> bool {
    forall|i: int, j: int| 0 <= i < j < pairs.len() ==> (#[trigger] pairs[i]).0@ != (#[trigger] pairs[j]).0@
}

/// The invariant of a value: at every depth, the keys of each map and LRU set
/// and the strings of each set are distinct.
pub open spec fn wf_value(v: Value) -> bool
    decreases v,
{
    match v {
        Value::Union(b, _) => wf_value(*b),
        Value::Array(items, _) => forall|k: int| 0 <= k < items@.len() ==> wf_value(#[trigger] items@[k]),
        Value::Mapping(p, _) => distinct_keys(p@) && forall|k: int|
            0 <= k < p@.len() ==> wf_value((#[trigger] p@[k]).1),
        Value::Record(p, _) => forall|k: int| 0 <= k < p@.len() ==> wf_value((#[trigger] p@[k]).1),
        Value::StringSet(ss, _) => forall|i: int, j: int|
            0 <= i < j < ss@.len() ==> (#[trigger] ss@[i])@ != (#[trigger] ss@[j])@,
        Value::LruSet(p, _, _) => distinct_keys(p@),
        Value::Optional(o, _) => match o {
            Some(b) => wf_value(*b),
            None => true,
        },
        _ => true,
    }
}

/// The annotation that resolution stamps on a node for a given index flag.
pub open spec fn setting(index: bool) -> Option<ValueSetting> {
    if index {
        Some(ValueSetting { index: true })
    } else {
        None
    }
}

pub fn get_value_setting(index: bool) -> (r: Option<ValueSetting>)
    ensures
        r == setting(index),
{
    if !index {
        None
    } else {
        Some(ValueSetting { index })
    }
}

} // verus!
