use ndc_odata::config::{Configuration, Endpoint};
use ndc_odata::error::{Error, Unsupported};
use ndc_odata::models::{
    BinaryComparisonOperator, ComparisonTarget, ComparisonValue, Expression, Field, OrderBy,
    OrderByElement, OrderByTarget, OrderDirection, Query, QueryRequest, ScalarValue,
};
use ndc_odata::ndc;
use ndc_odata::query::Request;

fn configuration() -> Configuration {
    Configuration {
        api_endpoint: Endpoint {
            protocol: "http".to_string(),
            authority: "example.com".to_string(),
            path: "/odata".to_string(),
        },
        schema: ndc::Schema {
            collections: vec![],
            scalar_types: vec![],
            object_types: vec![],
            functions: vec![],
            procedures: vec![],
        },
    }
}

fn query(fields: Vec<(&str, Field)>) -> Query {
    Query {
        aggregates: false,
        fields: Some(fields.into_iter().map(|(a, f)| (a.to_string(), f)).collect()),
        limit: None,
        offset: None,
        order_by: None,
        predicate: None,
    }
}

fn column(name: &str) -> Field {
    Field::Column { column: name.to_string() }
}

fn relationship(name: &str, query: Query) -> Field {
    Field::Relationship { query: Box::new(query), relationship: name.to_string() }
}

fn target(name: &str) -> ComparisonTarget {
    ComparisonTarget::Column { name: name.to_string(), path: vec![] }
}

fn equals(name: &str, value: ComparisonValue) -> Expression {
    Expression::BinaryComparisonOperator {
        column: target(name),
        operator: BinaryComparisonOperator::Equal,
        value,
    }
}

fn text(s: &str) -> ComparisonValue {
    ComparisonValue::Scalar { value: ScalarValue::Text { value: s.to_string() } }
}

fn compile(collection: &str, query: Query) -> Result<String, Error> {
    let request = QueryRequest { collection: collection.to_string(), query };
    Request::from_user_request(&configuration(), &request).map(|r| r.to_url())
}

fn query_string(url: &str) -> Vec<String> {
    url.split_once('?').unwrap().1.split('&').map(|s| s.to_string()).collect()
}

#[test]
fn select_and_top() {
    let mut q = query(vec![("id", column("ID"))]);
    q.limit = Some(5);
    let url = compile("People", q).unwrap();
    assert_eq!(url, "http://example.com/odata/People?$select=ID&$top=5");
    let params = query_string(&url);
    assert!(params.contains(&"$select=ID".to_string()));
    assert!(params.contains(&"$top=5".to_string()));
    assert!(!url.contains("$expand"));
    assert!(!url.contains("$orderby"));
    assert!(!url.contains("$skip"));
}

#[test]
fn greater_than_is_refused() {
    let mut q = query(vec![("id", column("ID"))]);
    q.predicate = Some(Expression::BinaryComparisonOperator {
        column: target("Age"),
        operator: BinaryComparisonOperator::Other { name: "_gt".to_string() },
        value: ComparisonValue::Scalar { value: ScalarValue::Other { text: "30".to_string() } },
    });
    assert!(matches!(
        compile("People", q),
        Err(Error::QueryShape(Unsupported::NonEqualityComparison))
    ));
}

#[test]
fn nested_non_equality_is_refused() {
    let mut q = query(vec![("id", column("ID"))]);
    q.predicate = Some(Expression::Not {
        expression: Box::new(Expression::And {
            expressions: vec![
                equals("Name", text("Ann")),
                Expression::BinaryComparisonOperator {
                    column: target("Age"),
                    operator: BinaryComparisonOperator::Other { name: "_lt".to_string() },
                    value: text("3"),
                },
            ],
        }),
    });
    assert!(matches!(
        compile("People", q),
        Err(Error::QueryShape(Unsupported::NonEqualityComparison))
    ));
}

#[test]
fn relationship_is_expanded() {
    let q = query(vec![("friend", relationship("Friends", query(vec![("name", column("Name"))])))]);
    let url = compile("People", q).unwrap();
    assert!(query_string(&url).contains(&"$expand=Friends($select=Name)".to_string()));
    assert_eq!(url, "http://example.com/odata/People?$select=&$expand=Friends($select=Name)");
}

#[test]
fn several_relationships_comma_joined_nested_semicolon_joined() {
    let mut friends = query(vec![("name", column("Name")), ("age", column("Age"))]);
    friends.limit = Some(2);
    let q = query(vec![
        ("user", column("UserName")),
        ("friend", relationship("Friends", friends)),
        ("trips", relationship("Trips", query(vec![("budget", column("Budget"))]))),
    ]);
    let url = compile("People", q).unwrap();
    assert_eq!(
        url,
        "http://example.com/odata/People?$select=UserName&$expand=Friends($select=Age,Name;$top=2),Trips($select=Budget)"
    );
}

#[test]
fn filter_translation() {
    let mut q = query(vec![("id", column("ID"))]);
    q.predicate = Some(Expression::Or {
        expressions: vec![
            Expression::And {
                expressions: vec![
                    equals("Name", text("O'Brien")),
                    Expression::UnaryComparisonOperator { column: target("Age") },
                ],
            },
            Expression::Not { expression: Box::new(equals("Age", ComparisonValue::Scalar { value: ScalarValue::Other { text: "42".to_string() } })) },
            equals("First", ComparisonValue::Column { column: target("Last") }),
        ],
    });
    let url = compile("People", q).unwrap();
    assert_eq!(
        url,
        "http://example.com/odata/People?$select=ID&$filter=(((Name eq 'O''Brien') and (Age eq null)) or (not (Age eq 42)) or (First eq Last))"
    );
}

#[test]
fn ordering_and_pagination() {
    let mut q = query(vec![("id", column("ID")), ("name", column("Name"))]);
    q.order_by = Some(OrderBy {
        elements: vec![
            OrderByElement {
                order_direction: OrderDirection::Asc,
                target: OrderByTarget::Column { name: "Name".to_string(), path: vec![] },
            },
            OrderByElement {
                order_direction: OrderDirection::Desc,
                target: OrderByTarget::Column { name: "Age".to_string(), path: vec![] },
            },
        ],
    });
    q.limit = Some(10);
    q.offset = Some(20);
    let url = compile("People", q).unwrap();
    assert_eq!(
        url,
        "http://example.com/odata/People?$select=ID,Name&$orderby=Name asc,Age desc&$top=10&$skip=20"
    );
}

#[test]
fn endpoint_path_trailing_slash() {
    let mut config = configuration();
    config.api_endpoint.path = "/".to_string();
    let request = QueryRequest { collection: "People".to_string(), query: query(vec![("id", column("ID"))]) };
    let url = Request::from_user_request(&config, &request).unwrap().to_url();
    assert_eq!(url, "http://example.com/People?$select=ID");
}

#[test]
fn unsupported_constructs_are_named() {
    let cases: Vec<(Expression, Unsupported)> = vec![
        (
            Expression::UnaryComparisonOperator {
                column: ComparisonTarget::Column { name: "A".to_string(), path: vec!["Rel".to_string()] },
            },
            Unsupported::ColumnPath,
        ),
        (
            Expression::UnaryComparisonOperator {
                column: ComparisonTarget::RootCollectionColumn { name: "A".to_string() },
            },
            Unsupported::RootCollectionColumn,
        ),
        (Expression::BinaryArrayComparisonOperator { column: target("A") }, Unsupported::ArrayComparison),
        (Expression::Exists, Unsupported::Existential),
        (equals("A", ComparisonValue::Variable { name: "v".to_string() }), Unsupported::Variable),
    ];
    for (predicate, expected) in cases {
        let mut q = query(vec![("id", column("ID"))]);
        q.predicate = Some(predicate);
        match compile("People", q) {
            Err(Error::QueryShape(u)) => assert_eq!(u, expected),
            other => panic!("unexpected {:?}", other),
        }
    }
}

#[test]
fn aggregates_and_missing_fields_are_refused() {
    let mut q = query(vec![("id", column("ID"))]);
    q.aggregates = true;
    assert!(matches!(compile("People", q), Err(Error::QueryShape(Unsupported::Aggregates))));
    let mut q = query(vec![]);
    q.fields = None;
    assert!(matches!(compile("People", q), Err(Error::QueryShape(Unsupported::MissingFields))));
}

#[test]
fn ordering_by_aggregate_is_refused() {
    let mut q = query(vec![("id", column("ID"))]);
    q.order_by = Some(OrderBy {
        elements: vec![OrderByElement { order_direction: OrderDirection::Asc, target: OrderByTarget::Aggregate }],
    });
    assert!(matches!(compile("People", q), Err(Error::QueryShape(Unsupported::OrderByTarget))));
}

#[test]
fn nested_query_errors_propagate() {
    let mut inner = query(vec![("name", column("Name"))]);
    inner.predicate = Some(Expression::Exists);
    let q = query(vec![("friend", relationship("Friends", inner))]);
    assert!(matches!(compile("People", q), Err(Error::QueryShape(Unsupported::Existential))));
}

#[test]
fn odata_fields_lists_original_names() {
    let q = ndc_odata::query::Query::from_user_query(&query(vec![("a", column("A")), ("b", column("B"))])).unwrap();
    let names: Vec<&String> = q.odata_fields();
    assert_eq!(names, vec!["A", "B"]);
    assert_eq!(q.prepare_parameters(), vec!["$select=A,B".to_string()]);
}

#[test]
fn largest_limit_and_offset() {
    let mut q = query(vec![("id", column("ID"))]);
    q.limit = Some(u32::MAX);
    q.offset = Some(0);
    let url = compile("People", q).unwrap();
    assert_eq!(url, "http://example.com/odata/People?$select=ID&$top=4294967295&$skip=0");
}

#[test]
fn filter_from_user_query() {
    let mut q = query(vec![("id", column("ID"))]);
    assert!(ndc_odata::query::Filter::from_user_query(&q).unwrap().is_none());
    q.predicate = Some(equals("Name", text("Ann")));
    let f = ndc_odata::query::Filter::from_user_query(&q).unwrap().unwrap();
    assert_eq!(f.to_odata_filter(), "(Name eq 'Ann')");
}

#[test]
fn fields_are_taken_in_alias_order_one_per_alias() {
    let q = query(vec![("b", column("B")), ("a", column("A")), ("b", column("C"))]);
    let url = compile("People", q).unwrap();
    assert_eq!(url, "http://example.com/odata/People?$select=A,C");
}

#[test]
fn produce_subquery_includes_nested_expansions() {
    let mut inner = query(vec![("name", column("Name"))]);
    inner.limit = Some(3);
    let q = query(vec![("id", column("ID")), ("trips", relationship("Trips", inner))]);
    let compiled = ndc_odata::query::Query::from_user_query(&q).unwrap();
    assert_eq!(
        ndc_odata::query::produce_subquery(&compiled),
        "$select=ID;$expand=Trips($select=Name;$top=3)"
    );
}
