use kafka_proxy::deser::deserialize_json;
use kafka_proxy::json::{Dec, Json};
use kafka_proxy::schema::{RecordField, Schema};
use kafka_proxy::value::Value;

fn num(mantissa: i128, scale: u32) -> Json {
    Json::Num(Dec { mantissa, scale })
}

fn s(text: &str) -> Json {
    Json::Str(text.as_bytes().to_vec())
}

#[test]
fn test_null() {
    assert_eq!(
        deserialize_json(&Schema::Null, &Json::Null).unwrap(),
        Value::Null
    );
}

#[test]
fn test_int() {
    assert_eq!(
        deserialize_json(&Schema::Int, &num(123, 0)).unwrap(),
        Value::Int(123)
    );
}

#[test]
fn test_long() {
    assert_eq!(
        deserialize_json(&Schema::Long, &num(123, 0)).unwrap(),
        Value::Long(123)
    );
}

#[test]
fn test_float() {
    assert_eq!(
        deserialize_json(&Schema::Float, &num(123123, 3)).unwrap(),
        Value::Float(123.123f32.to_bits())
    );
}

#[test]
fn test_double() {
    assert_eq!(
        deserialize_json(&Schema::Double, &num(123123, 3)).unwrap(),
        Value::Double(123.123f64.to_bits())
    );
}

#[test]
fn test_decimal() {
    assert_eq!(
        deserialize_json(&Schema::Decimal(6), &num(123456789, 6)).unwrap(),
        Value::Decimal(vec![0x07, 0x5B, 0xCD, 0x15])
    );
}

#[test]
fn test_string() {
    assert_eq!(
        deserialize_json(&Schema::String, &s("test")).unwrap(),
        Value::String(b"test".to_vec())
    );
}

#[test]
fn test_bytes() {
    assert_eq!(
        deserialize_json(&Schema::Bytes, &s("dGVzdA==")).unwrap(),
        Value::Bytes(b"test".to_vec())
    );
}

#[test]
fn test_fixed() {
    assert_eq!(
        deserialize_json(&Schema::Fixed(4), &s("dGVzdA==")).unwrap(),
        Value::Fixed(4, b"test".to_vec())
    );
}

#[test]
fn test_uuid() {
    assert_eq!(
        deserialize_json(&Schema::Uuid, &s("550e8400-e29b-11d4-a716-446655440000")).unwrap(),
        Value::Uuid(vec![
            0x55, 0x0e, 0x84, 0x00, 0xe2, 0x9b, 0x11, 0xd4, 0xa7, 0x16, 0x44, 0x66, 0x55, 0x44,
            0x00, 0x00
        ])
    );
}

#[test]
fn test_date() {
    assert_eq!(
        deserialize_json(&Schema::Date, &s("2001-02-03T12:34:56.789Z")).unwrap(),
        Value::Date(11356)
    );
}

#[test]
fn test_time_millis() {
    assert_eq!(
        deserialize_json(&Schema::TimeMillis, &s("2001-02-03T12:34:56.789Z")).unwrap(),
        Value::TimeMillis(45296789)
    );
}

#[test]
fn test_time_micros() {
    assert_eq!(
        deserialize_json(&Schema::TimeMicros, &s("2001-02-03T12:34:56.789Z")).unwrap(),
        Value::TimeMicros(45296789000)
    );
}

#[test]
fn test_timestamp_millis() {
    assert_eq!(
        deserialize_json(&Schema::TimestampMillis, &s("2001-02-03T12:34:56.789Z")).unwrap(),
        Value::TimestampMillis(981203696789)
    );
}

#[test]
fn test_local_timestamp_millis() {
    assert_eq!(
        deserialize_json(&Schema::LocalTimestampMillis, &s("2001-02-03T12:34:56.789Z")).unwrap(),
        Value::LocalTimestampMillis(981203696789)
    );
}

#[test]
fn test_timestamp_micros() {
    assert_eq!(
        deserialize_json(&Schema::TimestampMicros, &s("2001-02-03T12:34:56.789Z")).unwrap(),
        Value::TimestampMicros(981203696789000)
    );
}

#[test]
fn test_local_timestamp_micros() {
    assert_eq!(
        deserialize_json(&Schema::LocalTimestampMicros, &s("2001-02-03T12:34:56.789Z")).unwrap(),
        Value::LocalTimestampMicros(981203696789000)
    );
}

fn enum_schema() -> Schema {
    Schema::Enum(vec![b"A".to_vec(), b"B".to_vec(), b"C".to_vec()])
}

#[test]
fn test_enum_index() {
    assert_eq!(
        deserialize_json(&enum_schema(), &num(0, 0)).unwrap(),
        Value::Enum(0, b"A".to_vec())
    );
    assert_eq!(
        deserialize_json(&enum_schema(), &num(1, 0)).unwrap(),
        Value::Enum(1, b"B".to_vec())
    );
    assert_eq!(
        deserialize_json(&enum_schema(), &num(2, 0)).unwrap(),
        Value::Enum(2, b"C".to_vec())
    );
}

#[test]
fn test_enum_symbol() {
    assert_eq!(
        deserialize_json(&enum_schema(), &s("A")).unwrap(),
        Value::Enum(0, b"A".to_vec())
    );
    assert_eq!(
        deserialize_json(&enum_schema(), &s("B")).unwrap(),
        Value::Enum(1, b"B".to_vec())
    );
    assert_eq!(
        deserialize_json(&enum_schema(), &s("C")).unwrap(),
        Value::Enum(2, b"C".to_vec())
    );
}

#[test]
fn test_array() {
    let schema = Schema::Array(Box::new(Schema::Int));
    let json = Json::Arr(vec![num(1, 0), num(2, 0), num(3, 0)]);
    assert_eq!(
        deserialize_json(&schema, &json).unwrap(),
        Value::Array(vec![Value::Int(1), Value::Int(2), Value::Int(3)])
    );
}

#[test]
fn test_map() {
    let schema = Schema::Mapping(Box::new(Schema::Int));
    let json = Json::Obj(vec![
        (b"a".to_vec(), num(1, 0)),
        (b"b".to_vec(), num(2, 0)),
        (b"c".to_vec(), num(3, 0)),
    ]);
    assert_eq!(
        deserialize_json(&schema, &json).unwrap(),
        Value::Mapping(vec![
            (b"a".to_vec(), Value::Int(1)),
            (b"b".to_vec(), Value::Int(2)),
            (b"c".to_vec(), Value::Int(3)),
        ])
    );
}

#[test]
fn test_record() {
    let schema = Schema::Record(vec![
        RecordField {
            name: b"a".to_vec(),
            schema: Schema::Int,
            default: None,
        },
        RecordField {
            name: b"b".to_vec(),
            schema: Schema::String,
            default: None,
        },
        RecordField {
            name: b"c".to_vec(),
            schema: Schema::Long,
            default: Some(Json::Num(Dec {
                mantissa: 1,
                scale: 0,
            })),
        },
    ]);
    let json = Json::Obj(vec![
        (b"a".to_vec(), num(1, 0)),
        (b"b".to_vec(), s("2")),
    ]);
    assert_eq!(
        deserialize_json(&schema, &json).unwrap(),
        Value::Record(vec![
            (b"a".to_vec(), Value::Int(1)),
            (b"b".to_vec(), Value::String(b"2".to_vec())),
            (b"c".to_vec(), Value::Long(1)),
        ])
    );
}

#[test]
fn test_union() {
    let schema = Schema::Union(vec![Schema::Null, Schema::Int, Schema::String]);
    assert_eq!(
        deserialize_json(&schema, &Json::Null).unwrap(),
        Value::Union(0, Box::new(Value::Null))
    );
    assert_eq!(
        deserialize_json(&schema, &num(123, 0)).unwrap(),
        Value::Union(1, Box::new(Value::Int(123)))
    );
    assert_eq!(
        deserialize_json(&schema, &s("test123")).unwrap(),
        Value::Union(2, Box::new(Value::String(b"test123".to_vec())))
    );
}
