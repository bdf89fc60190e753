use avro_values::json::{from_json, json, Json, JsonNumber};
use avro_values::record::ToAvro;
use avro_values::value::{LruLimit, LruValue, Value};

#[test]
fn projection_flattens_wrappers_and_renders_scalars() {
    assert_eq!(json(&Value::Null), Json::Null);
    assert_eq!(json(&Value::Int(-3, None)), Json::Number(JsonNumber::NegInt(-3)));
    assert_eq!(json(&Value::Long(4, None)), Json::Number(JsonNumber::PosInt(4)));
    assert_eq!(json(&Value::Date(9, None)), Json::Number(JsonNumber::PosInt(9)));
    assert_eq!(
        json(&Value::Float(1.5f32.to_bits(), None)),
        Json::Number(JsonNumber::Float(1.5f64.to_bits()))
    );
    assert_eq!(json(&Value::Double(f64::NAN.to_bits(), None)), Json::Null);
    assert_eq!(
        json(&Value::Enum(2, "c".to_string(), None)),
        Json::String("c".to_string())
    );
    assert_eq!(
        json(&Value::Bytes(vec![1, 255], None)),
        Json::Array(vec![
            Json::Number(JsonNumber::PosInt(1)),
            Json::Number(JsonNumber::PosInt(255))
        ])
    );
    assert_eq!(
        json(&Value::Union(Box::new(Value::Boolean(true, None)), None)),
        Json::Bool(true)
    );
    assert_eq!(json(&Value::Optional(None, None)), Json::Null);
    assert_eq!(
        json(&Value::Optional(Some(Box::new(Value::Long(1, None))), None)),
        Json::Number(JsonNumber::PosInt(1))
    );
}

#[test]
fn projection_of_containers() {
    let record = Value::Record(
        vec![
            ("a".to_string(), Value::StringSet(vec!["x".to_string()], None)),
            (
                "b".to_string(),
                Value::LruSet(vec![("k".to_string(), LruValue::new(5, 6))], LruLimit { limit: 1 }, None),
            ),
        ],
        None,
    );
    assert_eq!(
        json(&record),
        Json::Object(vec![
            ("a".to_string(), Json::Array(vec![Json::String("x".to_string())])),
            (
                "b".to_string(),
                Json::Object(vec![(
                    "k".to_string(),
                    Json::Object(vec![
                        ("access_time".to_string(), Json::Number(JsonNumber::PosInt(5))),
                        ("count".to_string(), Json::Number(JsonNumber::PosInt(6))),
                    ])
                )])
            ),
        ])
    );
}

#[test]
fn conversion_from_json() {
    let doc = Json::Object(vec![
        ("n".to_string(), Json::Number(JsonNumber::PosInt(u64::MAX))),
        ("m".to_string(), Json::Number(JsonNumber::NegInt(-2))),
        ("f".to_string(), Json::Number(JsonNumber::Float(0.5f64.to_bits()))),
        ("l".to_string(), Json::Array(vec![Json::Null, Json::Bool(false), Json::String("s".to_string())])),
    ]);
    assert_eq!(
        from_json(doc),
        Value::Mapping(
            vec![
                ("n".to_string(), Value::Long(-1, None)),
                ("m".to_string(), Value::Long(-2, None)),
                ("f".to_string(), Value::Double(0.5f64.to_bits(), None)),
                (
                    "l".to_string(),
                    Value::Array(
                        vec![Value::Null, Value::Boolean(false, None), Value::String("s".to_string(), None)],
                        None
                    )
                ),
            ],
            None
        )
    );
}

#[test]
fn string_keyed_entries_convert_to_a_map() {
    let entries = vec![("a".to_string(), 1i32), ("b".to_string(), 2i32)];
    assert_eq!(
        entries.avro(),
        Value::Mapping(
            vec![("a".to_string(), Value::Int(1, None)), ("b".to_string(), Value::Int(2, None))],
            None
        )
    );
}
