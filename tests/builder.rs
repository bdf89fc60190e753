use avro_values::record::{Record, ToAvro};
use avro_values::schema::{Name, RecordField, RecordFieldOrder, Schema};
use avro_values::value::{get_value_setting, LruValue, SchemaResolutionError, Value, ValueSetting};

fn schema() -> Schema {
    let field = |name: &str, schema: Schema| RecordField {
        name: name.to_string(),
        doc: None,
        default: None,
        schema,
        order: RecordFieldOrder::Ascending,
        position: 0,
        index: false,
    };
    Schema::Record {
        name: Name::new("r"),
        doc: None,
        fields: vec![field("a", Schema::Long), field("b", Schema::String)],
    }
}

#[test]
fn record_builder_starts_with_nulls_and_puts_by_name() {
    let schema = schema();
    let mut record = Record::new(&schema).unwrap();
    assert_eq!(
        record.fields,
        vec![("a".to_string(), Value::Null), ("b".to_string(), Value::Null)]
    );
    record.put("b", "foo");
    record.put("zzz", 1i64);
    record.put("a", 42i64);
    let value = record.avro();
    assert_eq!(
        value,
        Value::Record(
            vec![
                ("a".to_string(), Value::Long(42, None)),
                ("b".to_string(), Value::String("foo".to_string(), None)),
            ],
            None
        )
    );
    assert!(value.validate(&schema));
}

#[test]
fn record_builder_needs_a_record_schema() {
    assert!(Record::new(&Schema::Long).is_none());
}

#[test]
fn native_conversions() {
    assert_eq!(true.avro(), Value::Boolean(true, None));
    assert_eq!(7i32.avro(), Value::Int(7, None));
    assert_eq!(7usize.avro(), Value::Long(7, None));
    assert_eq!(().avro(), Value::Null);
    assert_eq!("s".avro(), Value::String("s".to_string(), None));
    assert_eq!((&[1u8, 2][..]).avro(), Value::Bytes(vec![1, 2], None));
    assert_eq!(Some(3i64).avro(), Value::Union(Box::new(Value::Long(3, None)), None));
    assert_eq!(None::<i64>.avro(), Value::Union(Box::new(Value::Null), None));
    assert_eq!(
        LruValue::new(5, 6).avro(),
        Value::Record(
            vec![
                ("access_time".to_string(), Value::Long(5, None)),
                ("count".to_string(), Value::Long(6, None)),
            ],
            None
        )
    );
}

#[test]
fn lru_entry_round_trips_through_resolution() {
    let limit = avro_values::value::LruLimit { limit: 1 };
    let source = Value::Mapping(vec![("k".to_string(), LruValue::new(5, 6).avro())], None);
    assert_eq!(
        source.resolve(&Schema::LruSet(limit)).unwrap(),
        Value::LruSet(vec![("k".to_string(), LruValue::new(5, 6))], limit, None)
    );
}

#[test]
fn settings_and_errors() {
    assert_eq!(get_value_setting(false), None);
    assert_eq!(get_value_setting(true), Some(ValueSetting { index: true }));
    assert_eq!(SchemaResolutionError::new("boom").message(), "boom".to_string());
}
