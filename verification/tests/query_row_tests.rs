use neo4jrs::query::Query;
use neo4jrs::row::Row;
use neo4jrs::value::{BoltNode, Value};

#[test]
fn query_param_binds_and_replaces() {
    let q = Query::new("RETURN $a".to_string())
        .param("a".to_string(), Value::Integer(1))
        .param("b".to_string(), Value::Str("x".to_string()))
        .param("a".to_string(), Value::Integer(2));
    assert_eq!(q.parameters.len(), 2);
    assert_eq!(q.parameters[0].0, "a");
    assert!(matches!(q.parameters[0].1, Value::Integer(2)));
    assert_eq!(q.parameters[1].0, "b");
}

#[test]
fn row_typed_accessors_probe_without_failing() {
    let row = Row::new(
        vec!["x".to_string(), "s".to_string(), "b".to_string(), "f".to_string()],
        vec![
            Value::Integer(7),
            Value::Str("hi".to_string()),
            Value::Bool(true),
            Value::Float(2.5f64.to_bits()),
        ],
    );
    assert_eq!(row.get_int(&"x".to_string()), Some(7));
    assert_eq!(row.get_str(&"s".to_string()).map(|s| s.as_str()), Some("hi"));
    assert_eq!(row.get_bool(&"b".to_string()), Some(true));
    assert_eq!(row.get_float_bits(&"f".to_string()).map(f64::from_bits), Some(2.5));
    // Shape mismatches and missing fields yield nothing, not an error.
    assert_eq!(row.get_int(&"s".to_string()), None);
    assert_eq!(row.get_bool(&"x".to_string()), None);
    assert_eq!(row.get_int(&"missing".to_string()), None);
    assert!(row.get(&"x".to_string()).is_some());
    assert!(row.get(&"missing".to_string()).is_none());
}

#[test]
fn row_node_accessor() {
    let node = BoltNode {
        id: 3,
        labels: vec!["Person".to_string()],
        properties: vec![("name".to_string(), Value::Str("Ada".to_string()))],
    };
    let row = Row::new(vec!["a".to_string()], vec![Value::Node(node)]);
    let got = row.get_node(&"a".to_string()).expect("node");
    assert_eq!(got.id, 3);
    assert_eq!(got.labels, vec!["Person".to_string()]);
    assert_eq!(row.get_int(&"a".to_string()), None);
}

#[test]
fn value_conversions() {
    assert_eq!(Value::Integer(9).as_int(), Some(9));
    assert_eq!(Value::Str("x".to_string()).as_int(), None);
    assert_eq!(Value::Bool(false).as_bool(), Some(false));
    assert_eq!(Value::Str("y".to_string()).as_str().map(|s| s.as_str()), Some("y"));
    assert!(Value::Null.as_node().is_none());
}
