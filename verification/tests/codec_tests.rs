use neo4jrs::value::{Value, BoltNode, BoltRelationship, BoltUnboundRelationship, BoltPath,
    BoltPoint2D, BoltPoint3D};
use neo4jrs::codec::{encode_to_vec, decode_value};
use neo4jrs::errors::DecodeError;

fn node_eq(a: &BoltNode, b: &BoltNode) -> bool {
    a.id == b.id && a.labels == b.labels && entries_eq(&a.properties, &b.properties)
}

fn unbound_eq(a: &BoltUnboundRelationship, b: &BoltUnboundRelationship) -> bool {
    a.id == b.id && a.typ == b.typ && entries_eq(&a.properties, &b.properties)
}

fn entries_eq(a: &[(String, Value)], b: &[(String, Value)]) -> bool {
    a.len() == b.len()
        && a.iter().zip(b.iter()).all(|(x, y)| x.0 == y.0 && value_eq(&x.1, &y.1))
}

fn value_eq(a: &Value, b: &Value) -> bool {
    match (a, b) {
        (Value::Null, Value::Null) => true,
        (Value::Bool(x), Value::Bool(y)) => x == y,
        (Value::Integer(x), Value::Integer(y)) => x == y,
        (Value::Float(x), Value::Float(y)) => x == y,
        (Value::Str(x), Value::Str(y)) => x == y,
        (Value::Bytes(x), Value::Bytes(y)) => x == y,
        (Value::List(x), Value::List(y)) => {
            x.len() == y.len() && x.iter().zip(y.iter()).all(|(u, v)| value_eq(u, v))
        }
        (Value::Dictionary(x), Value::Dictionary(y)) => entries_eq(x, y),
        (Value::Node(x), Value::Node(y)) => node_eq(x, y),
        (Value::Relationship(x), Value::Relationship(y)) => {
            x.id == y.id && x.start_node_id == y.start_node_id && x.end_node_id == y.end_node_id
                && x.typ == y.typ && entries_eq(&x.properties, &y.properties)
        }
        (Value::UnboundRelationship(x), Value::UnboundRelationship(y)) => unbound_eq(x, y),
        (Value::Path(x), Value::Path(y)) => {
            x.nodes.len() == y.nodes.len()
                && x.nodes.iter().zip(y.nodes.iter()).all(|(u, v)| node_eq(u, v))
                && x.relationships.len() == y.relationships.len()
                && x.relationships
                    .iter()
                    .zip(y.relationships.iter())
                    .all(|(u, v)| unbound_eq(u, v))
                && x.indices == y.indices
        }
        (Value::Point2D(x), Value::Point2D(y)) => x == y,
        (Value::Point3D(x), Value::Point3D(y)) => x == y,
        _ => false,
    }
}

fn round_trip(v: Value) -> Value {
    let bytes = encode_to_vec(&v);
    let (w, used) = decode_value(&bytes, 0).expect("decoding an encoded value");
    assert_eq!(used, bytes.len());
    w
}

fn check_rt(v: Value) {
    let bytes = encode_to_vec(&v);
    let (w, used) = decode_value(&bytes, 0).expect("decoding an encoded value");
    assert_eq!(used, bytes.len());
    assert!(value_eq(&v, &w));
}

fn sample_node() -> BoltNode {
    BoltNode {
        id: 42,
        labels: vec!["Person".to_string(), "Admin".to_string()],
        properties: vec![
            ("name".to_string(), Value::Str("Ada".to_string())),
            ("age".to_string(), Value::Integer(36)),
        ],
    }
}

#[test]
fn round_trip_scalars() {
    check_rt(Value::Null);
    check_rt(Value::Bool(true));
    check_rt(Value::Bool(false));
    check_rt(Value::Float(1.23f64.to_bits()));
    check_rt(Value::Float(f64::NEG_INFINITY.to_bits()));
    check_rt(Value::Str(String::new()));
    check_rt(Value::Str("hello".to_string()));
    check_rt(Value::Str("héllo ☃ 😀".to_string()));
    check_rt(Value::Str("x".repeat(300)));
    check_rt(Value::Str("y".repeat(70_000)));
    check_rt(Value::Bytes(vec![]));
    check_rt(Value::Bytes((0u16..300).map(|i| i as u8).collect()));
}

#[test]
fn round_trip_integer_boundaries() {
    for n in [
        0, 1, -1, 42, -16, -17, 127, 128, -128, -129, 255, 256, 32767, 32768, -32768, -32769,
        2147483647, 2147483648, -2147483648, -2147483649, i64::MAX, i64::MIN,
    ] {
        check_rt(Value::Integer(n));
    }
}

#[test]
fn round_trip_collections() {
    check_rt(Value::List(vec![]));
    check_rt(Value::List(vec![
        Value::Integer(1),
        Value::Str("two".to_string()),
        Value::List(vec![Value::Null, Value::Bool(true)]),
    ]));
    let many: Vec<Value> = (0..40).map(Value::Integer).collect();
    check_rt(Value::List(many));
    check_rt(Value::Dictionary(vec![]));
    check_rt(Value::Dictionary(vec![
        ("a".to_string(), Value::Integer(1)),
        ("nested".to_string(), Value::Dictionary(vec![
            ("b".to_string(), Value::List(vec![Value::Float(2.5f64.to_bits())])),
        ])),
    ]));
}

#[test]
fn round_trip_graph_structures() {
    check_rt(Value::Node(sample_node()));
    check_rt(Value::Relationship(BoltRelationship {
        id: 7,
        start_node_id: 42,
        end_node_id: 43,
        typ: "KNOWS".to_string(),
        properties: vec![("since".to_string(), Value::Integer(1999))],
    }));
    check_rt(Value::UnboundRelationship(BoltUnboundRelationship {
        id: 8,
        typ: "LIKES".to_string(),
        properties: vec![],
    }));
    check_rt(Value::Path(BoltPath {
        nodes: vec![sample_node(), BoltNode { id: 43, labels: vec![], properties: vec![] }],
        relationships: vec![BoltUnboundRelationship {
            id: 8,
            typ: "KNOWS".to_string(),
            properties: vec![],
        }],
        indices: vec![1, 1],
    }));
    check_rt(Value::Point2D(BoltPoint2D {
        srid: 4326,
        x: 1.0f64.to_bits(),
        y: (-2.5f64).to_bits(),
    }));
    check_rt(Value::Point3D(BoltPoint3D {
        srid: 4979,
        x: 1.0f64.to_bits(),
        y: 2.0f64.to_bits(),
        z: 3.0f64.to_bits(),
    }));
}

#[test]
fn golden_encodings() {
    assert_eq!(encode_to_vec(&Value::Null), vec![0xC0]);
    assert_eq!(encode_to_vec(&Value::Bool(false)), vec![0xC2]);
    assert_eq!(encode_to_vec(&Value::Bool(true)), vec![0xC3]);
    assert_eq!(encode_to_vec(&Value::Integer(1)), vec![0x01]);
    assert_eq!(encode_to_vec(&Value::Integer(-1)), vec![0xFF]);
    assert_eq!(encode_to_vec(&Value::Integer(-16)), vec![0xF0]);
    assert_eq!(encode_to_vec(&Value::Integer(127)), vec![0x7F]);
    assert_eq!(encode_to_vec(&Value::Integer(-17)), vec![0xC8, 0xEF]);
    assert_eq!(encode_to_vec(&Value::Integer(128)), vec![0xC9, 0x00, 0x80]);
    assert_eq!(encode_to_vec(&Value::Integer(1234)), vec![0xC9, 0x04, 0xD2]);
    assert_eq!(encode_to_vec(&Value::Integer(-32769)), vec![0xCA, 0xFF, 0xFF, 0x7F, 0xFF]);
    assert_eq!(
        encode_to_vec(&Value::Integer(2147483648)),
        vec![0xCB, 0x00, 0x00, 0x00, 0x00, 0x80, 0x00, 0x00, 0x00]
    );
    assert_eq!(
        encode_to_vec(&Value::Str("hello".to_string())),
        vec![0x85, b'h', b'e', b'l', b'l', b'o']
    );
    assert_eq!(
        encode_to_vec(&Value::Float(1.0f64.to_bits())),
        vec![0xC1, 0x3F, 0xF0, 0x00, 0x00, 0x00, 0x00, 0x00, 0x00]
    );
    assert_eq!(
        encode_to_vec(&Value::List(vec![Value::Integer(1), Value::Integer(2)])),
        vec![0x92, 0x01, 0x02]
    );
    assert_eq!(
        encode_to_vec(&Value::Dictionary(vec![("a".to_string(), Value::Integer(1))])),
        vec![0xA1, 0x81, b'a', 0x01]
    );
    assert_eq!(encode_to_vec(&Value::Bytes(vec![1, 2, 3])), vec![0xCC, 0x03, 0x01, 0x02, 0x03]);
}

#[test]
fn decode_rejects_truncated_input() {
    assert!(matches!(decode_value(&vec![0xC9], 0), Err(DecodeError::Truncated)));
    assert!(matches!(decode_value(&vec![0xC9, 0x01], 0), Err(DecodeError::Truncated)));
    assert!(matches!(decode_value(&vec![0x85, b'h', b'i'], 0), Err(DecodeError::Truncated)));
    assert!(matches!(decode_value(&vec![], 0), Err(DecodeError::Truncated)));
    // A list promising two elements but carrying one.
    assert!(matches!(decode_value(&vec![0x92, 0x01], 0), Err(DecodeError::Truncated)));
}

#[test]
fn decode_rejects_unknown_marker() {
    assert!(matches!(decode_value(&vec![0xC7], 0), Err(DecodeError::UnknownMarker(0xC7))));
    assert!(matches!(decode_value(&vec![0xDF], 0), Err(DecodeError::UnknownMarker(0xDF))));
}

#[test]
fn decode_rejects_unknown_structure_signature() {
    // A three-field structure with a signature byte the format does not
    // define fails with a distinct error and does not crash.
    let bytes = vec![0xB3, 0xEE, 0x01, 0x02, 0x03];
    assert!(matches!(decode_value(&bytes, 0), Err(DecodeError::UnknownSignature(0xEE))));
}

#[test]
fn decode_rejects_bad_utf8() {
    assert!(matches!(decode_value(&vec![0x81, 0xFF], 0), Err(DecodeError::BadUtf8)));
}

#[test]
fn decode_reports_consumed_length_with_trailing_bytes() {
    let mut bytes = encode_to_vec(&Value::Integer(5));
    bytes.push(0xC0);
    let (v, used) = decode_value(&bytes, 0).unwrap();
    assert!(value_eq(&v, &Value::Integer(5)));
    assert_eq!(used, 1);
    let (w, used2) = decode_value(&bytes, used).unwrap();
    assert!(value_eq(&w, &Value::Null));
    assert_eq!(used2, 2);
}

#[test]
fn round_trip_accepts_wider_encodings_than_emitted() {
    // The decoder accepts every width, not only the narrowest one the
    // encoder picks.
    let (v, _) = decode_value(&vec![0xC8, 0x05], 0).unwrap();
    assert!(value_eq(&v, &Value::Integer(5)));
    let (w, _) = decode_value(&vec![0xCB, 0, 0, 0, 0, 0, 0, 0, 5], 0).unwrap();
    assert!(value_eq(&w, &Value::Integer(5)));
    let _ = round_trip(Value::Integer(5));
}
