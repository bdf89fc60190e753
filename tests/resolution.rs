use avro_values::resolve::date_from_parses;
use avro_values::schema::{Name, RecordField, RecordFieldOrder, Schema, UnionSchema};
use avro_values::value::{LruLimit, LruValue, Value, ValueSetting};

fn field(name: &str, default: Option<Value>, schema: Schema, index: bool) -> RecordField {
    RecordField {
        name: name.to_string(),
        doc: None,
        default,
        schema,
        order: RecordFieldOrder::Ascending,
        position: 0,
        index,
    }
}

fn enum_schema(symbols: &[&str]) -> Schema {
    Schema::Enum {
        name: Name::new("e"),
        doc: None,
        symbols: symbols.iter().map(|s| s.to_string()).collect(),
    }
}

#[test]
fn record_fields_take_defaults_in_schema_order() {
    let schema = Schema::Record {
        name: Name::new("r"),
        doc: None,
        fields: vec![
            field("a", Some(Value::Long(1, None)), Schema::Long, false),
            field("b", Some(Value::String("x".to_string(), None)), Schema::String, false),
        ],
    };
    let source = Value::Mapping(vec![("a".to_string(), Value::Long(5, None))], None);
    assert_eq!(
        source.resolve(&schema).unwrap(),
        Value::Record(
            vec![
                ("a".to_string(), Value::Long(5, None)),
                ("b".to_string(), Value::String("x".to_string(), None)),
            ],
            None
        )
    );
}

#[test]
fn record_missing_field_without_default_fails() {
    let schema = Schema::Record {
        name: Name::new("r"),
        doc: None,
        fields: vec![field("a", None, Schema::Long, false)],
    };
    assert!(Value::Mapping(vec![], None).resolve(&schema).is_err());
    assert!(Value::Long(3, None).resolve(&schema).is_err());
}

#[test]
fn record_source_last_duplicate_wins_and_field_flags_stamp() {
    let schema = Schema::Record {
        name: Name::new("r"),
        doc: None,
        fields: vec![field("s", None, Schema::String, true)],
    };
    let source = Value::Record(
        vec![
            ("s".to_string(), Value::String("first".to_string(), None)),
            ("s".to_string(), Value::String("last".to_string(), None)),
        ],
        None,
    );
    assert_eq!(
        source.resolve(&schema).unwrap(),
        Value::Record(
            vec![(
                "s".to_string(),
                Value::String("last".to_string(), Some(ValueSetting { index: true }))
            )],
            None
        )
    );
}

#[test]
fn record_enum_default_is_checked_against_symbols() {
    let good = Schema::Record {
        name: Name::new("r"),
        doc: None,
        fields: vec![field("e", Some(Value::String("y".to_string(), None)), enum_schema(&["x", "y"]), false)],
    };
    assert_eq!(
        Value::Mapping(vec![], None).resolve(&good).unwrap(),
        Value::Record(vec![("e".to_string(), Value::Enum(1, "y".to_string(), None))], None)
    );
    let bad = Schema::Record {
        name: Name::new("r"),
        doc: None,
        fields: vec![field("e", Some(Value::String("z".to_string(), None)), enum_schema(&["x", "y"]), false)],
    };
    assert!(Value::Mapping(vec![], None).resolve(&bad).is_err());
}

#[test]
fn enum_rejects_unknown_symbol() {
    let schema = enum_schema(&["x", "y"]);
    assert!(Value::String("unknown".to_string(), None).resolve(&schema).is_err());
    assert_eq!(
        Value::String("y".to_string(), None).resolve(&schema).unwrap(),
        Value::Enum(1, "y".to_string(), None)
    );
}

#[test]
fn enum_index_is_taken_from_the_target_schema() {
    let schema = enum_schema(&["x", "y"]);
    assert_eq!(
        Value::Enum(0, "y".to_string(), None).resolve(&schema).unwrap(),
        Value::Enum(1, "y".to_string(), None)
    );
    assert!(Value::Enum(5, "y".to_string(), None).resolve(&schema).is_err());
    assert!(Value::Enum(-1, "x".to_string(), None).resolve(&schema).is_err());
}

#[test]
fn bytes_from_array_checks_range() {
    let bad = Value::Array(vec![Value::Int(0, None), Value::Int(300, None)], None);
    assert!(bad.resolve(&Schema::Bytes).is_err());
    let good = Value::Array(vec![Value::Int(0, None), Value::Int(42, None)], None);
    assert_eq!(good.resolve(&Schema::Bytes).unwrap(), Value::Bytes(vec![0, 42], None));
    let from_longs = Value::Array(vec![Value::Long(255, None)], None);
    assert_eq!(from_longs.resolve(&Schema::Bytes).unwrap(), Value::Bytes(vec![255], None));
}

#[test]
fn string_and_bytes_convert_through_utf8() {
    assert_eq!(
        Value::String("hé".to_string(), None).resolve(&Schema::Bytes).unwrap(),
        Value::Bytes(vec![0x68, 0xc3, 0xa9], None)
    );
    assert_eq!(
        Value::Bytes(vec![0x68, 0xc3, 0xa9], None).resolve(&Schema::String).unwrap(),
        Value::String("hé".to_string(), None)
    );
    assert!(Value::Bytes(vec![0xff, 0xfe], None).resolve(&Schema::String).is_err());
}

#[test]
fn union_picks_first_matching_branch() {
    let schema = Schema::Union(
        UnionSchema::new(vec![enum_schema(&["a", "b"]), Schema::String, Schema::Long]).unwrap(),
    );
    let u = |v: Value| Value::Union(Box::new(v), None);
    let r = Value::String("b".to_string(), None).resolve(&schema).unwrap();
    assert_eq!(r, u(Value::Enum(1, "b".to_string(), None)));
    assert!(r.validate(&schema));
    assert_eq!(
        u(Value::String("c".to_string(), None)).resolve(&schema).unwrap(),
        u(Value::String("c".to_string(), None))
    );
    assert_eq!(Value::Long(7, None).resolve(&schema).unwrap(), u(Value::Long(7, None)));
    let again = u(Value::Long(7, None)).resolve(&schema).unwrap();
    assert_eq!(again, u(Value::Long(7, None)));
    assert!(again.validate(&schema));
    assert!(Value::Boolean(true, None).resolve(&schema).is_err());
    assert!(Value::Int(7, None).resolve(&schema).is_err());
}

#[test]
fn union_source_is_opened_for_a_plain_target() {
    let v = Value::Union(Box::new(Value::Int(3, None)), None);
    assert_eq!(v.resolve(&Schema::Long).unwrap(), Value::Long(3, None));
}

#[test]
fn numeric_widening_and_narrowing() {
    assert_eq!(Value::Int(-7, None).resolve(&Schema::Long).unwrap(), Value::Long(-7, None));
    assert_eq!(
        Value::Int(1, None).resolve(&Schema::Float).unwrap(),
        Value::Float(1.0f32.to_bits(), None)
    );
    assert_eq!(
        Value::Int(-3, None).resolve(&Schema::Double).unwrap(),
        Value::Double((-3.0f64).to_bits(), None)
    );
    assert_eq!(
        Value::Long(16_777_217, None).resolve(&Schema::Float).unwrap(),
        Value::Float((16_777_217i64 as f32).to_bits(), None)
    );
    assert_eq!(
        Value::Long(i64::MIN, None).resolve(&Schema::Double).unwrap(),
        Value::Double((i64::MIN as f64).to_bits(), None)
    );
    assert_eq!(
        Value::Long(9_007_199_254_740_993, None).resolve(&Schema::Double).unwrap(),
        Value::Double((9_007_199_254_740_993i64 as f64).to_bits(), None)
    );
    assert_eq!(
        Value::Long(4_294_967_298, None).resolve(&Schema::Int).unwrap(),
        Value::Int(2, None)
    );
    assert!(Value::String("1".to_string(), None).resolve(&Schema::Long).is_err());
}

#[test]
fn float_and_double_convert_like_as_casts() {
    for x in [0.1f32, -2.5, 1.0e-40, f32::MAX, f32::INFINITY, -0.0] {
        assert_eq!(
            Value::Float(x.to_bits(), None).resolve(&Schema::Double).unwrap(),
            Value::Double((x as f64).to_bits(), None)
        );
    }
    for x in [0.1f64, -2.5, 1.0e-42, 1.0e300, -1.0e-300, f64::NEG_INFINITY, 3.4028235677973366e38] {
        assert_eq!(
            Value::Double(x.to_bits(), None).resolve(&Schema::Float).unwrap(),
            Value::Float((x as f32).to_bits(), None)
        );
    }
}

#[test]
fn dates_from_text() {
    assert_eq!(
        Value::String("1970-01-01T00:00:01Z".to_string(), None).resolve(&Schema::Date).unwrap(),
        Value::Date(1000, None)
    );
    assert_eq!(
        Value::String("Thu, 01 Jan 1970 00:00:02 +0000".to_string(), None)
            .resolve(&Schema::Date)
            .unwrap(),
        Value::Date(2000, None)
    );
    assert!(Value::String("yesterday".to_string(), None).resolve(&Schema::Date).is_err());
    assert_eq!(Value::Long(5, None).resolve(&Schema::Date).unwrap(), Value::Date(5, None));
}

#[test]
fn date_choice_between_parses() {
    assert_eq!(date_from_parses(Some(1), Some(2), false).unwrap(), Value::Date(1, None));
    assert_eq!(
        date_from_parses(None, Some(2), true).unwrap(),
        Value::Date(2, Some(ValueSetting { index: true }))
    );
    assert!(date_from_parses(None, None, false).is_err());
}

#[test]
fn set_rejects_non_strings_and_deduplicates() {
    let items = Value::Array(
        vec![
            Value::String("a".to_string(), None),
            Value::String("b".to_string(), None),
            Value::String("a".to_string(), None),
        ],
        None,
    );
    assert_eq!(
        items.resolve(&Schema::StringSet).unwrap(),
        Value::StringSet(vec!["a".to_string(), "b".to_string()], None)
    );
    let mixed = Value::Array(vec![Value::String("a".to_string(), None), Value::Int(1, None)], None);
    assert!(mixed.resolve(&Schema::StringSet).is_err());
}

#[test]
fn lru_set_from_map() {
    let limit = LruLimit { limit: 10 };
    let entry = Value::Mapping(
        vec![
            ("access_time".to_string(), Value::Long(9, None)),
            ("count".to_string(), Value::Int(2, None)),
        ],
        None,
    );
    let partial = Value::Record(vec![("count".to_string(), Value::Long(4, None))], None);
    let source = Value::Mapping(vec![("k".to_string(), entry), ("j".to_string(), partial)], None);
    assert_eq!(
        source.resolve(&Schema::LruSet(limit)).unwrap(),
        Value::LruSet(
            vec![("k".to_string(), LruValue::new(9, 2)), ("j".to_string(), LruValue::new(0, 4))],
            limit,
            None
        )
    );
    let bad = Value::Mapping(vec![("k".to_string(), Value::Long(1, None))], None);
    assert!(bad.resolve(&Schema::LruSet(limit)).is_err());
}

#[test]
fn lru_set_takes_the_target_limit() {
    let source = Value::LruSet(vec![("k".to_string(), LruValue::new(1, 1))], LruLimit { limit: 3 }, None);
    assert_eq!(
        source.resolve(&Schema::LruSet(LruLimit { limit: 8 })).unwrap(),
        Value::LruSet(vec![("k".to_string(), LruValue::new(1, 1))], LruLimit { limit: 8 }, None)
    );
}

#[test]
fn optional_keeps_absence_and_wraps_presence() {
    let schema = Schema::Optional(Box::new(Schema::Long));
    assert_eq!(
        Value::Optional(None, None).resolve(&schema).unwrap(),
        Value::Optional(None, None)
    );
    assert_eq!(
        Value::Int(4, None).resolve(&schema).unwrap(),
        Value::Optional(Some(Box::new(Value::Long(4, None))), None)
    );
    assert_eq!(
        Value::Optional(Some(Box::new(Value::Long(6, None))), None).resolve(&schema).unwrap(),
        Value::Optional(Some(Box::new(Value::Long(6, None))), None)
    );
    assert!(Value::Boolean(true, None).resolve(&schema).is_err());
}

#[test]
fn fixed_size_must_match() {
    let schema = Schema::Fixed { size: 2, name: Name::new("f") };
    assert_eq!(
        Value::Fixed(2, vec![1, 2], None).resolve(&schema).unwrap(),
        Value::Fixed(2, vec![1, 2], None)
    );
    assert!(Value::Fixed(3, vec![1, 2, 3], None).resolve(&schema).is_err());
}

#[test]
fn array_and_map_resolve_elements() {
    let arr = Value::Array(vec![Value::Int(1, None), Value::Long(2, None)], None);
    assert_eq!(
        arr.resolve(&Schema::Array(Box::new(Schema::Long))).unwrap(),
        Value::Array(vec![Value::Long(1, None), Value::Long(2, None)], None)
    );
    let map = Value::Mapping(vec![("k".to_string(), Value::Int(1, None))], None);
    assert_eq!(
        map.resolve(&Schema::Mapping(Box::new(Schema::Long))).unwrap(),
        Value::Mapping(vec![("k".to_string(), Value::Long(1, None))], None)
    );
    assert!(Value::Null.resolve(&Schema::Array(Box::new(Schema::Long))).is_err());
}

#[test]
fn null_and_boolean() {
    assert_eq!(Value::Null.resolve(&Schema::Null).unwrap(), Value::Null);
    assert!(Value::Boolean(true, None).resolve(&Schema::Null).is_err());
    assert_eq!(
        Value::Boolean(true, None).resolve(&Schema::Boolean).unwrap(),
        Value::Boolean(true, None)
    );
}

#[test]
fn validate_is_repeatable() {
    let schema = enum_schema(&["x"]);
    let v = Value::String("x".to_string(), None);
    assert_eq!(v.validate(&schema), v.validate(&schema));
    assert!(v.validate(&schema));
}

#[test]
fn union_branches_must_differ_in_kind() {
    assert!(UnionSchema::new(vec![Schema::Null, Schema::Long]).is_some());
    assert!(UnionSchema::new(vec![Schema::Long, Schema::Long]).is_none());
    let inner = Schema::Union(UnionSchema::new(vec![Schema::Null]).unwrap());
    assert!(UnionSchema::new(vec![Schema::Long, inner]).is_none());
}

#[test]
fn resolved_record_with_union_field_validates() {
    let schema = Schema::Record {
        name: Name::new("r"),
        doc: None,
        fields: vec![field(
            "u",
            None,
            Schema::Union(UnionSchema::new(vec![Schema::Null, Schema::Int]).unwrap()),
            false,
        )],
    };
    let source = Value::Mapping(vec![("u".to_string(), Value::Int(5, None))], None);
    let r = source.resolve(&schema).unwrap();
    assert_eq!(
        r,
        Value::Record(
            vec![("u".to_string(), Value::Union(Box::new(Value::Int(5, None)), None))],
            None
        )
    );
    assert!(r.validate(&schema));
    let again = Value::Record(
        vec![("u".to_string(), Value::Union(Box::new(Value::Int(5, None)), None))],
        None,
    )
    .resolve(&schema)
    .unwrap();
    assert_eq!(again, r);
}
