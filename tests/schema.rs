use ndc_odata::error::Error;
use ndc_odata::ndc;
use ndc_odata::odata::{
    bool_from_lowercase, str_to_bool, Action, ComplexType, DataServices, EntityContainer,
    EntitySet, EntityType, Function, Key, NavigationProperty, NavigationPropertyBinding, Parameter,
    Property, PropertyRef, Schema, Version, EDMX,
};
use ndc_odata::prepare_odata_edmx;
use ndc_odata::types::{QualifiedType, Type, TypeData};

fn td(text: &str, nullable: bool) -> TypeData {
    TypeData { inner: Type::parse(text).unwrap(), nullable }
}

fn prop(name: &str, text: &str, nullable: bool) -> Property {
    Property { name: name.to_string(), type_data: td(text, nullable) }
}

fn nav(name: &str, text: &str) -> NavigationProperty {
    NavigationProperty { name: name.to_string(), type_data: td(text, true) }
}

fn qt(text: &str) -> QualifiedType {
    QualifiedType::parse(text).unwrap()
}

fn entity(
    name: &str,
    key: Option<&str>,
    base: Option<&str>,
    properties: Vec<Property>,
    navigation_properties: Vec<NavigationProperty>,
) -> EntityType {
    EntityType {
        name: name.to_string(),
        key: key.map(|k| Key { property_ref: PropertyRef { name: k.to_string() } }),
        base_type: base.map(qt),
        properties,
        navigation_properties,
    }
}

fn schema(
    namespace: &str,
    entity_types: Vec<EntityType>,
    complex_types: Vec<ComplexType>,
    entity_sets: Vec<EntitySet>,
) -> Schema {
    Schema {
        namespace: namespace.to_string(),
        xmlns: None,
        entity_types,
        complex_types,
        enum_types: vec![],
        functions: vec![],
        actions: vec![],
        entity_container: EntityContainer {
            name: "Container".to_string(),
            entity_sets,
            singletons: vec![],
            function_imports: vec![],
            action_imports: vec![],
        },
    }
}

fn document(schemas: Vec<Schema>) -> EDMX {
    EDMX {
        version: Version::new("4.0".to_string()).unwrap(),
        edmx: None,
        data_services: DataServices { schema: schemas },
    }
}

fn show(t: &ndc::Type) -> String {
    match t {
        ndc::Type::Collection { element_type } => format!("Collection({})", show(element_type)),
        ndc::Type::Nullable { underlying_type } => format!("Nullable({})", show(underlying_type)),
        ndc::Type::Qualified { qualified_type } => qualified_type.to_string(),
    }
}

/// `A` extends `B` extends `C`; only `C` declares the key `id`.
fn three_levels() -> EDMX {
    document(vec![schema(
        "NS",
        vec![
            entity("A", None, Some("NS.B"), vec![prop("name", "Edm.String", false), prop("a", "Edm.Int32", true)], vec![]),
            entity("B", None, Some("NS.C"), vec![prop("b", "Edm.Boolean", true)], vec![]),
            entity("C", Some("id"), None, vec![prop("id", "Edm.Int64", false), prop("name", "Edm.Guid", true)], vec![]),
        ],
        vec![],
        vec![],
    )])
}

#[test]
fn translate_non_nullable_collection() {
    let t = ndc::Type::from_type_data(&td("Collection(Edm.String)", false));
    assert_eq!(show(&t), "Collection(Edm.String)");
}

#[test]
fn translate_nullable_type() {
    let t = ndc::Type::from_type_data(&td("Edm.Int32", true));
    assert_eq!(show(&t), "Nullable(Edm.Int32)");
    let t = ndc::Type::from_type_data(&td("Edm.Int32", false));
    assert_eq!(show(&t), "Edm.Int32");
}

#[test]
fn translate_nullable_collection_wraps_once() {
    let t = ndc::Type::from_type_data(&td("Collection(Collection(NS.T))", true));
    assert_eq!(show(&t), "Nullable(Collection(Collection(NS.T)))");
}

#[test]
fn key_name_inherited_through_two_levels() {
    let doc = three_levels();
    let s = &doc.data_services.schema[0];
    let a = s.entity_type("A").unwrap();
    let b = s.entity_type("B").unwrap();
    assert_eq!(a.key_name(&doc).unwrap(), "id");
    assert_eq!(b.key_name(&doc).unwrap(), "id");
}

#[test]
fn fields_include_all_levels_own_first() {
    let doc = three_levels();
    let a = doc.data_services.schema[0].entity_type("A").unwrap();
    let names: Vec<String> = a.fields(&doc).unwrap().iter().map(|p| p.name.clone()).collect();
    assert_eq!(names, vec!["name", "a", "b", "id", "name"]);
    let fields = a.fields(&doc).unwrap();
    let first_name = fields.iter().find(|p| p.name == "name").unwrap();
    assert_eq!(first_name.underlying_type().to_string(), "Edm.String");
}

#[test]
fn key_type_inherited() {
    let doc = three_levels();
    let a = doc.data_services.schema[0].entity_type("A").unwrap();
    assert_eq!(a.key_type(&doc).unwrap().to_string(), "Edm.Int64");
}

#[test]
fn object_type_own_declaration_wins() {
    let doc = three_levels();
    let objects = ndc::ObjectType::extract_from(&doc, &doc.data_services.schema[0]).unwrap();
    let keys: Vec<&str> = objects.iter().map(|(k, _)| k.as_str()).collect();
    assert_eq!(keys, vec!["NS.A", "NS.B", "NS.C"]);
    let a = &objects[0].1;
    let fields: Vec<(String, String)> =
        a.fields.iter().map(|(n, t)| (n.clone(), show(t))).collect();
    assert_eq!(
        fields,
        vec![
            ("name".to_string(), "Edm.String".to_string()),
            ("a".to_string(), "Nullable(Edm.Int32)".to_string()),
            ("b".to_string(), "Nullable(Edm.Boolean)".to_string()),
            ("id".to_string(), "Edm.Int64".to_string()),
        ]
    );
}

#[test]
fn missing_base_type_is_a_reference_error() {
    let doc = document(vec![schema(
        "NS",
        vec![entity("A", None, Some("NS.Missing"), vec![], vec![])],
        vec![],
        vec![],
    )]);
    let a = doc.data_services.schema[0].entity_type("A").unwrap();
    assert!(matches!(a.fields(&doc), Err(Error::Reference(_))));
    assert!(matches!(a.key_name(&doc), Err(Error::Reference(_))));
}

#[test]
fn base_type_cycle_is_a_reference_error() {
    let doc = document(vec![schema(
        "NS",
        vec![
            entity("A", None, Some("NS.B"), vec![], vec![]),
            entity("B", None, Some("NS.A"), vec![], vec![]),
        ],
        vec![],
        vec![],
    )]);
    let a = doc.data_services.schema[0].entity_type("A").unwrap();
    assert!(matches!(a.fields(&doc), Err(Error::Reference(_))));
    assert!(matches!(a.key_name(&doc), Err(Error::Reference(_))));
    assert!(matches!(a.navigation_properties(&doc), Err(Error::Reference(_))));
}

#[test]
fn entity_without_key_is_a_reference_error() {
    let doc = document(vec![schema("NS", vec![entity("A", None, None, vec![], vec![])], vec![], vec![])]);
    let a = doc.data_services.schema[0].entity_type("A").unwrap();
    assert!(matches!(a.key_name(&doc), Err(Error::Reference(_))));
    assert!(matches!(a.key_type(&doc), Err(Error::Reference(_))));
}

#[test]
fn complex_base_type_is_followed() {
    let doc = document(vec![schema(
        "NS",
        vec![],
        vec![
            ComplexType { name: "Address".to_string(), base_type: Some(qt("NS.Base")), properties: vec![prop("Street", "Edm.String", true)], navigation_properties: vec![] },
            ComplexType { name: "Base".to_string(), base_type: None, properties: vec![prop("Country", "Edm.String", true)], navigation_properties: vec![] },
        ],
        vec![],
    )]);
    let c = doc.data_services.schema[0].complex_type("Address").unwrap();
    let names: Vec<String> = c.fields(&doc).unwrap().iter().map(|p| p.name.clone()).collect();
    assert_eq!(names, vec!["Street", "Country"]);
}

#[test]
fn scalar_types_only_primitives_used() {
    let doc = document(vec![schema(
        "NS",
        vec![entity(
            "Person",
            Some("Id"),
            None,
            vec![
                prop("Id", "Edm.String", false),
                prop("Tags", "Collection(Edm.Int32)", true),
                prop("Home", "NS.Address", true),
                prop("Alias", "Edm.String", true),
            ],
            vec![],
        )],
        vec![ComplexType { name: "Address".to_string(), base_type: None, properties: vec![prop("Lat", "Edm.Double", true)], navigation_properties: vec![] }],
        vec![],
    )]);
    let scalars = ndc::ScalarType::extract_from(&doc.data_services.schema[0]);
    let mut names: Vec<String> = scalars.iter().map(|s| s.0.clone()).collect();
    names.sort();
    assert_eq!(names, vec!["Edm.Double", "Edm.Int32", "Edm.String"]);
}

#[test]
fn scalar_types_empty_schema() {
    let doc = document(vec![schema("NS", vec![], vec![], vec![])]);
    assert!(ndc::ScalarType::extract_from(&doc.data_services.schema[0]).is_empty());
}

fn people() -> EDMX {
    let mut s = schema(
        "NS",
        vec![entity(
            "Person",
            Some("UserName"),
            None,
            vec![prop("UserName", "Edm.String", false)],
            vec![nav("Friends", "Collection(NS.Person)"), nav("BestFriend", "NS.Person")],
        )],
        vec![],
        vec![EntitySet {
            name: "People".to_string(),
            entity_type: qt("NS.Person"),
            navigation_property_bindings: vec![NavigationPropertyBinding {
                path: "Friends".to_string(),
                target: "People".to_string(),
            }],
        }],
    );
    s.functions = vec![Function {
        name: "GetNearestAirport".to_string(),
        parameters: vec![Parameter { name: "lat".to_string(), type_data: td("Edm.Double", false) }],
        return_type: td("NS.Airport", true),
        entity_set_path: None,
        is_bound: false,
    }];
    s.actions = vec![
        Action { name: "ResetDataSource".to_string(), is_bound: false, parameters: vec![], return_type: None, entity_set_path: None },
        Action { name: "ShareTrip".to_string(), is_bound: false, parameters: vec![Parameter { name: "id".to_string(), type_data: td("Edm.Int32", false) }], return_type: Some(td("Collection(NS.Trip)", false)), entity_set_path: None },
    ];
    document(vec![s])
}

#[test]
fn navigation_property_holds_target_key_type() {
    let doc = people();
    let objects = ndc::ObjectType::extract_from(&doc, &doc.data_services.schema[0]).unwrap();
    let person = &objects[0].1;
    let fields: Vec<(String, String)> =
        person.fields.iter().map(|(n, t)| (n.clone(), show(t))).collect();
    assert_eq!(
        fields,
        vec![
            ("UserName".to_string(), "Edm.String".to_string()),
            ("Friends".to_string(), "Edm.String".to_string()),
            ("BestFriend".to_string(), "Edm.String".to_string()),
        ]
    );
}

#[test]
fn collections_from_entity_sets() {
    let doc = people();
    let collections = ndc::Collection::extract_from(&doc, &doc.data_services.schema[0]).unwrap();
    assert_eq!(collections.len(), 1);
    assert_eq!(collections[0].name, "People");
    assert_eq!(collections[0].key, "UserName");
    assert_eq!(collections[0].collection_type.to_string(), "NS.Person");
    assert_eq!(collections[0].relationships, vec![("Friends".to_string(), "People".to_string())]);
}

#[test]
fn collection_with_unknown_entity_type_fails() {
    let doc = document(vec![schema(
        "NS",
        vec![],
        vec![],
        vec![EntitySet { name: "Ghosts".to_string(), entity_type: qt("NS.Ghost"), navigation_property_bindings: vec![] }],
    )]);
    assert!(matches!(
        ndc::Collection::extract_from(&doc, &doc.data_services.schema[0]),
        Err(Error::Reference(_))
    ));
    assert!(matches!(prepare_odata_edmx(doc), Err(Error::Reference(_))));
}

#[test]
fn functions_and_procedures() {
    let doc = people();
    let functions = ndc::Function::extract_from(&doc.data_services.schema[0]);
    assert_eq!(functions.len(), 1);
    assert_eq!(functions[0].name, "GetNearestAirport");
    assert_eq!(show(&functions[0].result_type), "Nullable(NS.Airport)");
    assert_eq!(functions[0].arguments.len(), 1);
    assert_eq!(show(&functions[0].arguments[0].1), "Edm.Double");
    let procedures = ndc::Procedure::extract_from(&doc.data_services.schema[0]);
    assert_eq!(procedures.len(), 1);
    assert_eq!(procedures[0].name, "ShareTrip");
    assert_eq!(show(&procedures[0].result_type), "Collection(NS.Trip)");
}

#[test]
fn prepare_is_deterministic() {
    let first = prepare_odata_edmx(people()).unwrap();
    let second = prepare_odata_edmx(people()).unwrap();
    assert_eq!(format!("{:?}", first), format!("{:?}", second));
    assert_eq!(first.collections.len(), 1);
    assert_eq!(first.object_types.len(), 1);
    assert_eq!(first.scalar_types.len(), 1);
    assert!(first.collection("People").is_some());
    assert!(first.function("GetNearestAirport").is_some());
    assert!(first.procedure("ShareTrip").is_some());
    assert!(first.procedure("ResetDataSource").is_none());
}

#[test]
fn version_accepts_only_4_0_and_4_01() {
    assert!(Version::new("4.0".to_string()).is_ok());
    assert_eq!(Version::new("4.01".to_string()).unwrap().as_str(), "4.01");
    assert!(matches!(Version::new("3.0".to_string()), Err(Error::Document(_))));
}

#[test]
fn boolean_attributes_ignore_case() {
    assert_eq!(str_to_bool("TRUE").unwrap(), true);
    assert_eq!(str_to_bool("False").unwrap(), false);
    assert!(matches!(str_to_bool("yes"), Err(Error::Document(_))));
    assert!(bool_from_lowercase("TRUE").is_err());
}

#[test]
fn lookups_by_name() {
    let doc = people();
    assert!(doc.schema("NS").is_some());
    assert!(doc.schema("Other").is_none());
    assert!(doc.entity_type(&qt("NS.Person")).is_some());
    assert!(doc.complex_type(&qt("NS.Person")).is_none());
    let s = &doc.data_services.schema[0];
    assert_eq!(s.entity_set("People").unwrap().name, "People");
    assert!(s.function("GetNearestAirport").is_some());
    assert!(s.action("ShareTrip").is_some());
    assert!(s.enum_type("Color").is_none());
}

#[test]
fn collection_info_foreign_keys_and_uniqueness() {
    let doc = people();
    let collections = ndc::Collection::extract_from(&doc, &doc.data_services.schema[0]).unwrap();
    let infos = ndc_odata::collection_info::translate(&collections).unwrap();
    assert_eq!(infos.len(), 1);
    let info = &infos[0];
    assert_eq!(info.name, "People");
    assert_eq!(info.collection_type, "NS.Person");
    assert_eq!(info.foreign_keys.len(), 1);
    assert_eq!(info.foreign_keys[0].0, "Friends");
    assert_eq!(
        info.foreign_keys[0].1.column_mapping,
        vec![("Friends".to_string(), "UserName".to_string())]
    );
    assert_eq!(info.foreign_keys[0].1.foreign_collection, "People");
    assert_eq!(info.uniqueness_constraints.len(), 1);
    assert_eq!(info.uniqueness_constraints[0].0, "PeopleByUserName");
    assert_eq!(info.uniqueness_constraints[0].1.unique_columns, vec!["UserName".to_string()]);
}

#[test]
fn collection_info_unknown_target_is_a_reference_error() {
    let collections = vec![ndc::Collection {
        name: "People".to_string(),
        key: "Id".to_string(),
        collection_type: ndc::QualifiedType { schema: "NS".to_string(), name: "Person".to_string() },
        relationships: vec![("Friends".to_string(), "Nobody".to_string())],
    }];
    assert!(matches!(
        ndc_odata::collection_info::translate(&collections),
        Err(Error::Reference(_))
    ));
}

#[test]
fn scalar_types_unite_across_schemas() {
    let doc = document(vec![
        schema("A", vec![entity("X", Some("Id"), None, vec![prop("Id", "Edm.Guid", false)], vec![])], vec![], vec![]),
        schema("B", vec![entity("Y", Some("Id"), None, vec![prop("Id", "Edm.Guid", false), prop("At", "Edm.Date", true)], vec![])], vec![], vec![]),
    ]);
    let target = prepare_odata_edmx(doc).unwrap();
    let mut names: Vec<String> = target.scalar_types.iter().map(|s| s.0.clone()).collect();
    names.sort();
    assert_eq!(names, vec!["Edm.Date", "Edm.Guid"]);
    let keys: Vec<&str> = target.object_types.iter().map(|(k, _)| k.as_str()).collect();
    assert_eq!(keys, vec!["A.X", "B.Y"]);
}

#[test]
fn collections_sorted_by_name_one_per_name() {
    let set = |name: &str, binding: &str| EntitySet {
        name: name.to_string(),
        entity_type: qt("NS.Person"),
        navigation_property_bindings: vec![NavigationPropertyBinding {
            path: binding.to_string(),
            target: name.to_string(),
        }],
    };
    let doc = document(vec![schema(
        "NS",
        vec![entity("Person", Some("UserName"), None, vec![prop("UserName", "Edm.String", false)], vec![])],
        vec![],
        vec![set("People", "First"), set("Admins", "X"), set("People", "Second")],
    )]);
    let collections = ndc::Collection::extract_from(&doc, &doc.data_services.schema[0]).unwrap();
    let names: Vec<&str> = collections.iter().map(|c| c.name.as_str()).collect();
    assert_eq!(names, vec!["Admins", "People"]);
    assert_eq!(collections[1].relationships, vec![("Second".to_string(), "People".to_string())]);
}

#[test]
fn key_must_name_a_property() {
    let doc = document(vec![schema(
        "NS",
        vec![entity("Person", Some("Id"), None, vec![prop("Name", "Edm.String", false)], vec![])],
        vec![],
        vec![EntitySet { name: "People".to_string(), entity_type: qt("NS.Person"), navigation_property_bindings: vec![] }],
    )]);
    assert!(matches!(
        ndc::Collection::extract_from(&doc, &doc.data_services.schema[0]),
        Err(Error::Reference(_))
    ));
    assert!(matches!(prepare_odata_edmx(doc), Err(Error::Reference(_))));
}

#[test]
fn unused_entity_type_without_key_fails_translation() {
    let doc = document(vec![schema(
        "NS",
        vec![entity("Orphan", None, None, vec![prop("Name", "Edm.String", false)], vec![])],
        vec![],
        vec![],
    )]);
    assert!(matches!(prepare_odata_edmx(doc), Err(Error::Reference(_))));
}
