use ndc_odata::models::{Field, Query};
use ndc_odata::query;
use ndc_odata::response::{Response, Value};

fn compiled(fields: Vec<(&str, Field)>) -> query::Query {
    let q = Query {
        aggregates: false,
        fields: Some(fields.into_iter().map(|(a, f)| (a.to_string(), f)).collect()),
        limit: None,
        offset: None,
        order_by: None,
        predicate: None,
    };
    query::Query::from_user_query(&q).unwrap()
}

fn spec_fields() -> query::Query {
    compiled(vec![
        ("id", Field::Column { column: "ID".to_string() }),
        (
            "friend",
            Field::Relationship {
                query: Box::new(Query {
                    aggregates: false,
                    fields: Some(vec![("name".to_string(), Field::Column { column: "Name".to_string() })]),
                    limit: None,
                    offset: None,
                    order_by: None,
                    predicate: None,
                }),
                relationship: "Friends".to_string(),
            },
        ),
    ])
}

fn show(v: &Value) -> String {
    match v {
        Value::Null => "null".to_string(),
        Value::Bool(b) => b.to_string(),
        Value::Number(n) => n.clone(),
        Value::Text(t) => format!("\"{}\"", t),
        Value::Array(vs) => format!("[{}]", vs.iter().map(show).collect::<Vec<_>>().join(",")),
        Value::Object(es) => format!(
            "{{{}}}",
            es.iter().map(|(k, v)| format!("\"{}\":{}", k, show(v))).collect::<Vec<_>>().join(",")
        ),
    }
}

fn object(es: Vec<(&str, Value)>) -> Vec<(String, Value)> {
    es.into_iter().map(|(k, v)| (k.to_string(), v)).collect()
}

#[test]
fn interprets_columns_and_relationships() {
    let source = object(vec![
        ("ID", Value::Number("1".to_string())),
        ("Friends", Value::Object(object(vec![("Name", Value::Text("Ann".to_string()))]))),
    ]);
    let row = Response::interpret(&source, &spec_fields());
    assert_eq!(show(&Value::Object(row)), "{\"id\":1,\"friend\":{\"name\":\"Ann\"}}");
}

#[test]
fn absent_relationship_is_omitted() {
    let source = object(vec![("ID", Value::Number("1".to_string()))]);
    let row = Response::interpret(&source, &spec_fields());
    assert_eq!(show(&Value::Object(row)), "{\"id\":1}");
}

#[test]
fn null_relationship_is_omitted() {
    let source = object(vec![("ID", Value::Number("1".to_string())), ("Friends", Value::Null)]);
    let row = Response::interpret(&source, &spec_fields());
    assert_eq!(show(&Value::Object(row)), "{\"id\":1}");
}

#[test]
fn collection_valued_relationship_is_omitted() {
    let source = object(vec![
        ("ID", Value::Number("1".to_string())),
        ("Friends", Value::Array(vec![Value::Object(object(vec![("Name", Value::Text("Ann".to_string()))]))])),
    ]);
    let row = Response::interpret(&source, &spec_fields());
    assert_eq!(show(&Value::Object(row)), "{\"id\":1}");
}

#[test]
fn missing_column_is_omitted_not_an_error() {
    let source = object(vec![("Other", Value::Bool(true))]);
    let row = Response::interpret(&source, &spec_fields());
    assert!(row.is_empty());
}

#[test]
fn nested_values_are_copied_whole() {
    let fields = compiled(vec![("tags", Field::Column { column: "Tags".to_string() })]);
    let source = object(vec![(
        "Tags",
        Value::Array(vec![Value::Text("a".to_string()), Value::Object(object(vec![("x", Value::Null)]))]),
    )]);
    let row = Response::interpret(&source, &fields);
    assert_eq!(show(&Value::Object(row)), "{\"tags\":[\"a\",{\"x\":null}]}");
}
