use ndc_odata::error::Error;
use ndc_odata::types::{QualifiedType, Type};

fn qualified(schema: &str, name: &str) -> Type {
    Type::Qualified {
        qualified_type: QualifiedType { schema: schema.to_string(), name: name.to_string() },
    }
}

#[test]
fn parses_qualified_name() {
    let t = Type::parse("Edm.String").unwrap();
    match &t {
        Type::Qualified { qualified_type } => {
            assert_eq!(qualified_type.schema, "Edm");
            assert_eq!(qualified_type.name, "String");
        }
        _ => panic!("expected a qualified type"),
    }
}

#[test]
fn parses_dotted_namespace() {
    let t = Type::parse("Microsoft.OData.SampleService.Models.Person").unwrap();
    match &t {
        Type::Qualified { qualified_type } => {
            assert_eq!(qualified_type.schema, "Microsoft.OData.SampleService.Models");
            assert_eq!(qualified_type.name, "Person");
        }
        _ => panic!("expected a qualified type"),
    }
}

#[test]
fn parses_nested_collections() {
    let t = Type::parse("Collection(Collection(NS.Foo))").unwrap();
    match &t {
        Type::Collection { elements } => match elements.as_ref() {
            Type::Collection { elements } => {
                assert_eq!(elements.underlying_type().name, "Foo");
            }
            _ => panic!("expected a nested collection"),
        },
        _ => panic!("expected a collection"),
    }
    assert_eq!(t.underlying_type().schema, "NS");
}

#[test]
fn display_then_parse_round_trip() {
    let t = Type::Collection { elements: Box::new(qualified("A.B", "C")) };
    let text = t.to_string();
    assert_eq!(text, "Collection(A.B.C)");
    assert_eq!(Type::parse(&text).unwrap().to_string(), text);
}

#[test]
fn parse_then_display_round_trip() {
    for s in ["NS.Foo", "Collection(NS.Foo)", "Collection(Collection(a.b.c))", "Edm.Int32"] {
        assert_eq!(Type::parse(s).unwrap().to_string(), s);
    }
}

#[test]
fn rejects_empty_input() {
    assert!(matches!(Type::parse(""), Err(Error::TypeGrammar(_))));
}

#[test]
fn rejects_single_component() {
    assert!(matches!(Type::parse("Foo"), Err(Error::TypeGrammar(_))));
}

#[test]
fn rejects_unbalanced_parentheses() {
    match Type::parse("Collection(NS.Foo") {
        Err(Error::TypeGrammar(text)) => assert_eq!(text, "Collection(NS.Foo"),
        _ => panic!("expected a grammar error"),
    }
    assert!(Type::parse("NS.Foo)").is_err());
    assert!(Type::parse("Collection()").is_err());
}

#[test]
fn rejects_empty_components() {
    assert!(Type::parse("NS..Foo").is_err());
    assert!(Type::parse(".Foo").is_err());
    assert!(Type::parse("NS.").is_err());
}

#[test]
fn qualified_type_parse_refuses_collections() {
    assert!(QualifiedType::parse("Collection(NS.Foo)").is_err());
    let q = QualifiedType::parse("NS.Foo").unwrap();
    assert_eq!(q.to_string(), "NS.Foo");
}
