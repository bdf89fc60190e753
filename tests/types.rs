use avro_values::schema::{Name, RecordField, RecordFieldOrder, Schema, UnionSchema};
use avro_values::value::Value;

#[test]
fn validate() {
    let value_schema_valid = vec![
        (Value::Int(42, None), Schema::Int, true),
        (Value::Int(42, None), Schema::Boolean, false),
        (
            Value::Union(Box::new(Value::Null), None),
            Schema::Union(UnionSchema::new(vec![Schema::Null, Schema::Int]).unwrap()),
            true,
        ),
        (
            Value::Union(Box::new(Value::Int(42, None)), None),
            Schema::Union(UnionSchema::new(vec![Schema::Null, Schema::Int]).unwrap()),
            true,
        ),
        (
            Value::Union(Box::new(Value::Null), None),
            Schema::Union(UnionSchema::new(vec![Schema::Double, Schema::Int]).unwrap()),
            false,
        ),
        (
            Value::Union(Box::new(Value::Int(42, None)), None),
            Schema::Union(
                UnionSchema::new(vec![
                    Schema::Null,
                    Schema::Double,
                    Schema::String,
                    Schema::Int,
                ])
                .unwrap(),
            ),
            true,
        ),
        (
            Value::Array(vec![Value::Long(42i64, None)], None),
            Schema::Array(Box::new(Schema::Long)),
            true,
        ),
        (
            Value::Array(vec![Value::Boolean(true, None)], None),
            Schema::Array(Box::new(Schema::Long)),
            false,
        ),
        (Value::Record(vec![], None), Schema::Null, false),
    ];

    for (value, schema, valid) in value_schema_valid.into_iter() {
        assert_eq!(valid, value.validate(&schema));
    }
}

#[test]
fn validate_fixed() {
    let schema = Schema::Fixed {
        size: 4,
        name: Name::new("some_fixed"),
    };

    assert!(Value::Fixed(4, vec![0, 0, 0, 0], None).validate(&schema));
    assert!(!Value::Fixed(5, vec![0, 0, 0, 0, 0], None).validate(&schema));
}

#[test]
fn validate_enum() {
    let schema = Schema::Enum {
        name: Name::new("some_enum"),
        doc: None,
        symbols: vec![
            "spades".to_string(),
            "hearts".to_string(),
            "diamonds".to_string(),
            "clubs".to_string(),
        ],
    };

    assert!(Value::Enum(0, "spades".to_string(), None).validate(&schema));
    assert!(Value::String("spades".to_string(), None).validate(&schema));

    assert!(!Value::Enum(1, "spades".to_string(), None).validate(&schema));
    assert!(!Value::String("lorem".to_string(), None).validate(&schema));

    let other_schema = Schema::Enum {
        name: Name::new("some_other_enum"),
        doc: None,
        symbols: vec![
            "hearts".to_string(),
            "diamonds".to_string(),
            "clubs".to_string(),
            "spades".to_string(),
        ],
    };

    assert!(!Value::Enum(0, "spades".to_string(), None).validate(&other_schema));
}

#[test]
fn validate_record() {
    let schema = Schema::Record {
        name: Name::new("some_record"),
        doc: None,
        fields: vec![
            RecordField {
                name: "a".to_string(),
                doc: None,
                default: None,
                schema: Schema::Long,
                order: RecordFieldOrder::Ascending,
                position: 0,
                index: false,
            },
            RecordField {
                name: "b".to_string(),
                doc: None,
                default: None,
                schema: Schema::String,
                order: RecordFieldOrder::Ascending,
                position: 1,
                index: false,
            },
        ],
    };

    assert!(Value::Record(
        vec![
            ("a".to_string(), Value::Long(42i64, None)),
            ("b".to_string(), Value::String("foo".to_string(), None)),
        ],
        None
    )
    .validate(&schema));

    assert!(!Value::Record(
        vec![
            ("b".to_string(), Value::String("foo".to_string(), None)),
            ("a".to_string(), Value::Long(42i64, None)),
        ],
        None
    )
    .validate(&schema));

    assert!(!Value::Record(
        vec![
            ("a".to_string(), Value::Boolean(false, None)),
            ("b".to_string(), Value::String("foo".to_string(), None)),
        ],
        None
    )
    .validate(&schema));

    assert!(!Value::Record(
        vec![
            ("a".to_string(), Value::Long(42i64, None)),
            ("c".to_string(), Value::String("foo".to_string(), None)),
        ],
        None
    )
    .validate(&schema));

    assert!(!Value::Record(
        vec![
            ("a".to_string(), Value::Long(42i64, None)),
            ("b".to_string(), Value::String("foo".to_string(), None)),
            ("c".to_string(), Value::Null),
        ],
        None
    )
    .validate(&schema));
}

#[test]
fn resolve_bytes_ok() {
    let value = Value::Array(vec![Value::Int(0, None), Value::Int(42, None)], None);
    assert_eq!(
        value.resolve(&Schema::Bytes).unwrap(),
        Value::Bytes(vec![0u8, 42u8], None)
    );
}

#[test]
fn resolve_bytes_failure() {
    let value = Value::Array(vec![Value::Int(2000, None), Value::Int(-42, None)], None);
    assert!(value.resolve(&Schema::Bytes).is_err());
}
