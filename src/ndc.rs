//! The connector's target schema vocabulary and its extraction from the metadata model.

use crate::error::Error;
use crate::lookup::{find_named, lemma_map_all_prefix, lemma_map_all_step, map_all, Named};
use crate::odata;
use crate::odata::{ComplexType, EntityType, Property, EDMX};
use crate::text::{lemma_name_lt_total, name_lt, str_eq, str_less};
use crate::types;
use crate::types::{qualified_text, underlying, QualifiedName, TypeName};
use vstd::prelude::*;

verus! {

/// A type of the target schema: collections and nullability are constructors of their own.
#[derive(Debug)]
pub enum Type {
    Collection { element_type: Box<Type> },
    Nullable { underlying_type: Box<Type> },
    Qualified { qualified_type: QualifiedType },
}

/// A named type of the target schema, with the schema that declares it.
#[derive(Debug)]
pub struct QualifiedType {
    pub schema: String,
    pub name: String,
}

/// The model of a target `Type`.
pub enum TargetType {
    Collection(Box<TargetType>),
    Nullable(Box<TargetType>),
    Named(QualifiedName),
}

impl View for QualifiedType {
    type V = QualifiedName;

    open spec fn view(&self) -> QualifiedName {
        QualifiedName { schema: self.schema@, name: self.name@ }
    }
}

/// The model of a target `Type`.
pub open spec fn target_view(t: Type) -> TargetType
    decreases t,
{
    match t {
        Type::Collection { element_type } => TargetType::Collection(
            Box::new(target_view(*element_type)),
        ),
        Type::Nullable { underlying_type } => TargetType::Nullable(
            Box::new(target_view(*underlying_type)),
        ),
        Type::Qualified { qualified_type } => TargetType::Named(qualified_type@),
    }
}

impl View for Type {
    type V = TargetType;

    open spec fn view(&self) -> TargetType {
        target_view(*self)
    }
}

/// The translation of a non-nullable OData type: collection elements are never nullable.
pub open spec fn translate_strict(t: TypeName) -> TargetType
    decreases t,
{
    match t {
        TypeName::Collection(e) => TargetType::Collection(Box::new(translate_strict(*e))),
        TypeName::Qualified(q) => TargetType::Named(q),
    }
}

/// The translation of an OData type with its nullability.
pub open spec fn translate(t: TypeName, nullable: bool) -> TargetType {
    if nullable {
        TargetType::Nullable(Box::new(translate_strict(t)))
    } else {
        translate_strict(t)
    }
}

/// No `Nullable` anywhere in the type.
pub open spec fn nowhere_nullable(t: TargetType) -> bool
    decreases t,
{
    match t {
        TargetType::Collection(e) => nowhere_nullable(*e),
        TargetType::Nullable(_) => false,
        TargetType::Named(_) => true,
    }
}

/// A non-nullable collection translates to a collection of the translated, non-nullable
/// elements, never wrapped in `Nullable`.
pub proof fn lemma_translate_collection(x: TypeName)
    ensures
        translate(TypeName::Collection(Box::new(x)), false) == TargetType::Collection(
            Box::new(translate(x, false)),
        ),
        !(translate(TypeName::Collection(Box::new(x)), false) is Nullable),
{
}

/// A nullable type translates to `Nullable` around the translation of the same type taken as
/// non-nullable.
pub proof fn lemma_translate_nullable(t: TypeName)
    ensures
        translate(t, true) == TargetType::Nullable(Box::new(translate(t, false))),
{
}

/// A translated type has at most one `Nullable`, at the top: everything beneath is non-nullable.
pub proof fn lemma_translate_single_nullable(t: TypeName, nullable: bool)
    ensures
        match translate(t, nullable) {
            TargetType::Nullable(inner) => nowhere_nullable(*inner),
            other => nowhere_nullable(other),
        },
    decreases t,
{
    lemma_strict_nowhere_nullable(t);
}

proof fn lemma_strict_nowhere_nullable(t: TypeName)
    ensures
        nowhere_nullable(translate_strict(t)),
    decreases t,
{
    match t {
        TypeName::Collection(e) => lemma_strict_nowhere_nullable(*e),
        TypeName::Qualified(_) => {},
    }
}

impl QualifiedType {
    /// The text `schema.name`.
    pub fn to_string(&self) -> (r: String)
        ensures
            r@ == qualified_text(self@),
    {
        let mut r = self.schema.clone();
        r.append(".");
        proof {
            reveal_strlit(".");
        }
        r.append(self.name.as_str());
        r
    }
}

fn target_name(q: &types::QualifiedType) -> (r: QualifiedType)
    ensures
        r@ == q@,
{
    QualifiedType { schema: q.schema.clone(), name: q.name.clone() }
}

fn translate_inner(t: &types::Type) -> (r: Type)
    ensures
        r@ == translate_strict(t@),
    decreases t,
{
    match t {
        types::Type::Collection { elements } => Type::Collection {
            element_type: Box::new(translate_inner(elements)),
        },
        types::Type::Qualified { qualified_type } => Type::Qualified {
            qualified_type: target_name(qualified_type),
        },
    }
}

impl Type {
    /// Maps an OData type to a target type: a nullable type becomes `Nullable` of its
    /// non-nullable translation, and elements of collections are never nullable.
    pub fn from_type_data(input: &types::TypeData) -> (r: Type)
        ensures
            r@ == translate(input.inner@, input.nullable),
    {
        let strict = translate_inner(&input.inner);
        if input.nullable {
            Type::Nullable { underlying_type: Box::new(strict) }
        } else {
            strict
        }
    }
}

/// The sixteen primitive type names of OData.
pub open spec fn primitive_catalogue() -> Seq<Seq<char>> {
    seq![
        "Edm.Binary"@,
        "Edm.Boolean"@,
        "Edm.Byte"@,
        "Edm.Date"@,
        "Edm.DateTimeOffset"@,
        "Edm.Decimal"@,
        "Edm.Double"@,
        "Edm.Duration"@,
        "Edm.Guid"@,
        "Edm.Int16"@,
        "Edm.Int32"@,
        "Edm.Int64"@,
        "Edm.SByte"@,
        "Edm.Single"@,
        "Edm.String"@,
        "Edm.TimeOfDay"@,
    ]
}

/// The primitive type names, in catalogue order.
fn primitive_names() -> (r: Vec<&'static str>)
    ensures
        r@.map_values(|s: &str| s@) == primitive_catalogue(),
{
    let mut v: Vec<&'static str> = Vec::new();
    v.push("Edm.Binary");
    v.push("Edm.Boolean");
    v.push("Edm.Byte");
    v.push("Edm.Date");
    v.push("Edm.DateTimeOffset");
    v.push("Edm.Decimal");
    v.push("Edm.Double");
    v.push("Edm.Duration");
    v.push("Edm.Guid");
    v.push("Edm.Int16");
    v.push("Edm.Int32");
    v.push("Edm.Int64");
    v.push("Edm.SByte");
    v.push("Edm.Single");
    v.push("Edm.String");
    v.push("Edm.TimeOfDay");
    assert(v@.map_values(|s: &str| s@) =~= primitive_catalogue());
    v
}

/// The name of a scalar type of the target schema.
#[derive(Debug)]
pub struct ScalarType(pub String);

/// The names held by a sequence of scalar types.
pub open spec fn scalar_names(v: Seq<ScalarType>) -> Seq<Seq<char>> {
    v.map_values(|s: ScalarType| s.0@)
}

/// The text of the qualified type beneath a property's type.
pub open spec fn property_type_text(p: Property) -> Seq<char> {
    qualified_text(underlying(p.type_data.inner@))
}

/// Some property in `ps` has a type whose underlying name is `n`.
pub open spec fn some_property_typed(ps: Seq<Property>, n: Seq<char>) -> bool {
    exists|j: int| 0 <= j < ps.len() && property_type_text(#[trigger] ps[j]) == n
}

/// Some entity or complex type of `schema` has a property whose underlying type name is `n`.
pub open spec fn schema_uses_type(schema: odata::Schema, n: Seq<char>) -> bool {
    (exists|i: int|
        0 <= i < schema.entity_types@.len() && some_property_typed(
            (#[trigger] schema.entity_types@[i]).properties@,
            n,
        )) || (exists|i: int|
        0 <= i < schema.complex_types@.len() && some_property_typed(
            (#[trigger] schema.complex_types@[i]).properties@,
            n,
        ))
}

/// The scalar types of a schema: the primitive names that its properties use.
pub open spec fn scalar_types_of(schema: odata::Schema) -> Set<Seq<char>> {
    Set::new(|n: Seq<char>| primitive_catalogue().contains(n) && schema_uses_type(schema, n))
}

/// Scalar extraction never yields a name outside the catalogue of primitive types.
pub proof fn lemma_scalar_types_primitive(schema: odata::Schema, n: Seq<char>)
    requires
        scalar_types_of(schema).contains(n),
    ensures
        primitive_catalogue().contains(n),
{
}

fn is_primitive(name: &String, prims: &Vec<&'static str>) -> (r: bool)
    requires
        prims@.map_values(|s: &str| s@) == primitive_catalogue(),
    ensures
        r == primitive_catalogue().contains(name@),
{
    let mut i: usize = 0;
    while i < prims.len()
        invariant
            i <= prims@.len(),
            prims@.map_values(|s: &str| s@) == primitive_catalogue(),
            forall|j: int| 0 <= j < i ==> primitive_catalogue()[j] != name@,
        decreases prims@.len() - i,
    {
        if str_eq(name.as_str(), prims[i]) {
            assert(primitive_catalogue()[i as int] == name@);
            return true;
        }
        i += 1;
    }
    false
}

fn has_scalar(v: &Vec<ScalarType>, name: &String) -> (r: bool)
    ensures
        r == scalar_names(v@).contains(name@),
{
    let mut i: usize = 0;
    while i < v.len()
        invariant
            i <= v@.len(),
            forall|j: int| 0 <= j < i ==> scalar_names(v@)[j] != name@,
        decreases v@.len() - i,
    {
        if v[i].0 == *name {
            assert(scalar_names(v@)[i as int] == name@);
            return true;
        }
        i += 1;
    }
    false
}

fn add_scalars(properties: &Vec<Property>, prims: &Vec<&'static str>, out: &mut Vec<ScalarType>)
    requires
        prims@.map_values(|s: &str| s@) == primitive_catalogue(),
        scalar_names(old(out)@).no_duplicates(),
    ensures
        scalar_names(final(out)@).no_duplicates(),
        scalar_names(final(out)@).to_set() == scalar_names(old(out)@).to_set().union(
            Set::new(
                |n: Seq<char>|
                    primitive_catalogue().contains(n) && some_property_typed(properties@, n),
            ),
        ),
{
    let ghost start = scalar_names(out@).to_set();
    let mut i: usize = 0;
    while i < properties.len()
        invariant
            i <= properties@.len(),
            prims@.map_values(|s: &str| s@) == primitive_catalogue(),
            scalar_names(out@).no_duplicates(),
            scalar_names(out@).to_set() == start.union(
                Set::new(
                    |n: Seq<char>|
                        primitive_catalogue().contains(n) && some_property_typed(
                            properties@.subrange(0, i as int),
                            n,
                        ),
                ),
            ),
        decreases properties@.len() - i,
    {
        let ghost before = scalar_names(out@);
        let name = properties[i].underlying_type().to_string();
        let ghost text = name@;
        let prim = is_primitive(&name, prims);
        if prim && !has_scalar(out, &name) {
            out.push(ScalarType(name));
            assert(scalar_names(out@) =~= before.push(text));
            assert(before.push(text).to_set() =~= before.to_set().insert(text)) by {
                assert(before.push(text)[before.len() as int] == text);
                assert forall|x: Seq<char>| before.push(text).contains(x) implies before.to_set().insert(text).contains(x) by {
                    let j = choose|j: int| 0 <= j < before.push(text).len() && before.push(text)[j] == x;
                    if j < before.len() {
                        assert(before[j] == x);
                    }
                }
                assert forall|x: Seq<char>| before.contains(x) implies before.push(text).contains(x) by {
                    let j = choose|j: int| 0 <= j < before.len() && before[j] == x;
                    assert(before.push(text)[j] == x);
                }
            }
        }
        assert(scalar_names(out@).to_set() =~= before.to_set().union(
            if prim {
                set![text]
            } else {
                Set::empty()
            },
        ));
        let ghost next = properties@.subrange(0, i as int + 1);
        assert forall|n: Seq<char>| some_property_typed(next, n) == (some_property_typed(
            properties@.subrange(0, i as int),
            n,
        ) || property_type_text(properties@[i as int]) == n) by {
            if some_property_typed(next, n) {
                let j = choose|j: int| 0 <= j < next.len() && property_type_text(#[trigger] next[j]) == n;
                if j < i {
                    assert(properties@.subrange(0, i as int)[j] == next[j]);
                }
            }
            if some_property_typed(properties@.subrange(0, i as int), n) {
                let j = choose|j: int|
                    0 <= j < i && property_type_text(
                        #[trigger] properties@.subrange(0, i as int)[j],
                    ) == n;
                assert(next[j] == properties@.subrange(0, i as int)[j]);
            }
            if property_type_text(properties@[i as int]) == n {
                assert(next[i as int] == properties@[i as int]);
            }
        }
        assert(scalar_names(out@).to_set() =~= start.union(
            Set::new(
                |n: Seq<char>|
                    primitive_catalogue().contains(n) && some_property_typed(next, n),
            ),
        ));
        i += 1;
    }
    assert(properties@.subrange(0, i as int) =~= properties@);
}

impl ScalarType {
    /// The primitive types that the entity and complex types of `schema` use, each once.
    pub fn extract_from(schema: &odata::Schema) -> (r: Vec<ScalarType>)
        ensures
            scalar_names(r@).no_duplicates(),
            scalar_names(r@).to_set() == scalar_types_of(*schema),
    {
        let prims = primitive_names();
        let mut out: Vec<ScalarType> = Vec::new();
        assert(scalar_names(out@).to_set() =~= Set::empty());
        let mut i: usize = 0;
        while i < schema.entity_types.len()
            invariant
                i <= schema.entity_types@.len(),
                prims@.map_values(|s: &str| s@) == primitive_catalogue(),
                scalar_names(out@).no_duplicates(),
                scalar_names(out@).to_set() == Set::new(
                    |n: Seq<char>|
                        primitive_catalogue().contains(n) && exists|k: int|
                            0 <= k < i && some_property_typed(
                                (#[trigger] schema.entity_types@[k]).properties@,
                                n,
                            ),
                ),
            decreases schema.entity_types@.len() - i,
        {
            add_scalars(&schema.entity_types[i].properties, &prims, &mut out);
            assert(scalar_names(out@).to_set() =~= Set::new(
                |n: Seq<char>|
                    primitive_catalogue().contains(n) && exists|k: int|
                        0 <= k < i + 1 && some_property_typed(
                            (#[trigger] schema.entity_types@[k]).properties@,
                            n,
                        ),
            ));
            i += 1;
        }
        let mut i: usize = 0;
        while i < schema.complex_types.len()
            invariant
                i <= schema.complex_types@.len(),
                prims@.map_values(|s: &str| s@) == primitive_catalogue(),
                scalar_names(out@).no_duplicates(),
                scalar_names(out@).to_set() == Set::new(
                    |n: Seq<char>|
                        primitive_catalogue().contains(n) && ((exists|k: int|
                            0 <= k < schema.entity_types@.len() && some_property_typed(
                                (#[trigger] schema.entity_types@[k]).properties@,
                                n,
                            )) || (exists|k: int|
                            0 <= k < i && some_property_typed(
                                (#[trigger] schema.complex_types@[k]).properties@,
                                n,
                            ))),
                ),
            decreases schema.complex_types@.len() - i,
        {
            add_scalars(&schema.complex_types[i].properties, &prims, &mut out);
            assert(scalar_names(out@).to_set() =~= Set::new(
                |n: Seq<char>|
                    primitive_catalogue().contains(n) && ((exists|k: int|
                        0 <= k < schema.entity_types@.len() && some_property_typed(
                            (#[trigger] schema.entity_types@[k]).properties@,
                            n,
                        )) || (exists|k: int|
                        0 <= k < i + 1 && some_property_typed(
                            (#[trigger] schema.complex_types@[k]).properties@,
                            n,
                        ))),
            ));
            i += 1;
        }
        assert(scalar_names(out@).to_set() =~= scalar_types_of(*schema));
        out
    }
}


/// Named entries of a map: field name and model of its value.
pub open spec fn has_key<V>(m: Seq<(Seq<char>, V)>, k: Seq<char>) -> bool {
    exists|i: int| 0 <= i < m.len() && (#[trigger] m[i]).0 == k
}

/// The map built by inserting `entries` in order, where an existing name is never overwritten.
pub open spec fn first_wins<V>(entries: Seq<(Seq<char>, V)>) -> Seq<(Seq<char>, V)>
    decreases entries.len(),
{
    if entries.len() == 0 {
        Seq::empty()
    } else {
        let m = first_wins(entries.drop_last());
        if has_key(m, entries.last().0) {
            m
        } else {
            m.push(entries.last())
        }
    }
}

proof fn lemma_first_wins_push<V>(entries: Seq<(Seq<char>, V)>, e: (Seq<char>, V))
    ensures
        first_wins(entries.push(e)) == (if has_key(first_wins(entries), e.0) {
            first_wins(entries)
        } else {
            first_wins(entries).push(e)
        }),
{
    assert(entries.push(e).drop_last() =~= entries);
}

/// The fields of an object type of the target schema, each name once.
#[derive(Debug)]
pub struct ObjectType {
    pub fields: Vec<(String, Type)>,
}

/// The model of a list of typed fields.
pub open spec fn field_entries(v: Seq<(String, Type)>) -> Seq<(Seq<char>, TargetType)> {
    v.map_values(|e: (String, Type)| (e.0@, e.1@))
}

/// The model of a list of name pairs.
pub open spec fn pair_entries(v: Seq<(String, String)>) -> Seq<(Seq<char>, Seq<char>)> {
    v.map_values(|e: (String, String)| (e.0@, e.1@))
}

/// A property as a field: its name and its translated type.
pub open spec fn property_entry(p: Property) -> (Seq<char>, TargetType) {
    (p.name@, translate(p.type_data.inner@, p.type_data.nullable))
}

/// The type of the key of the entity type that a navigation property leads to.
pub open spec fn navigation_key_type(doc: EDMX, n: odata::NavigationProperty) -> Option<
    QualifiedName,
> {
    match odata::entity_type_of(doc, underlying(n.type_data.inner@)) {
        Some(e) => odata::key_type_of(
            doc,
            odata::entity_declarations(e),
            odata::walk_budget(doc),
        ),
        None => None,
    }
}

/// Navigation properties as fields holding the key type of their target.
pub open spec fn navigation_entries(doc: EDMX, navs: Seq<odata::NavigationProperty>) -> Option<
    Seq<(Seq<char>, TargetType)>,
>
    decreases navs.len(),
{
    if navs.len() == 0 {
        Some(Seq::empty())
    } else {
        match navigation_entries(doc, navs.drop_last()) {
            Some(es) => match navigation_key_type(doc, navs.last()) {
                Some(q) => Some(es.push((navs.last().name@, TargetType::Named(q)))),
                None => None,
            },
            None => None,
        }
    }
}

/// The fields of the object type for a structured type: all its properties, own and inherited,
/// then all its navigation properties; the first declaration of a name wins.
pub open spec fn object_fields(doc: EDMX, d: odata::Declarations) -> Option<
    Seq<(Seq<char>, TargetType)>,
> {
    let budget = odata::walk_budget(doc);
    match odata::inherited_properties(doc, d, budget) {
        Some(ps) => match odata::inherited_navigation(doc, d, budget) {
            Some(ns) => match navigation_entries(doc, ns) {
                Some(es) => Some(first_wins(ps.map_values(|p: Property| property_entry(p)) + es)),
                None => None,
            },
            None => None,
        },
        None => None,
    }
}

proof fn lemma_navigation_entries_prefix(doc: EDMX, navs: Seq<odata::NavigationProperty>, k: int)
    requires
        0 <= k <= navs.len(),
        navigation_entries(doc, navs.subrange(0, k)) is None,
    ensures
        navigation_entries(doc, navs) is None,
    decreases navs.len() - k,
{
    if k < navs.len() {
        assert(navs.subrange(0, k + 1).drop_last() =~= navs.subrange(0, k));
        lemma_navigation_entries_prefix(doc, navs, k + 1);
    } else {
        assert(navs.subrange(0, k) =~= navs);
    }
}

fn insert_first(fields: &mut Vec<(String, Type)>, name: String, value: Type)
    ensures
        field_entries(final(fields)@) == (if has_key(field_entries(old(fields)@), name@) {
            field_entries(old(fields)@)
        } else {
            field_entries(old(fields)@).push((name@, value@))
        }),
{
    let mut i: usize = 0;
    while i < fields.len()
        invariant
            i <= fields@.len(),
            forall|j: int| 0 <= j < i ==> (#[trigger] field_entries(fields@)[j]).0 != name@,
        decreases fields@.len() - i,
    {
        if fields[i].0 == name {
            assert(field_entries(fields@)[i as int].0 == name@);
            return;
        }
        i += 1;
    }
    let ghost before = field_entries(fields@);
    fields.push((name, value));
    assert(field_entries(fields@) =~= before.push((name@, value@)));
}

fn navigation_key_target(metadata: &EDMX, n: &odata::NavigationProperty) -> (r: Result<
    QualifiedType,
    Error,
>)
    ensures
        match r {
            Ok(q) => navigation_key_type(*metadata, *n) == Some(q@),
            Err(e) => navigation_key_type(*metadata, *n) is None && e is Reference,
        },
{
    let target = n.type_data.underlying_type();
    match metadata.entity_type(target) {
        Some(e) => {
            let q = e.key_type(metadata)?;
            Ok(target_name(&q))
        },
        None => Err(Error::Reference(target.to_string())),
    }
}

fn object_type_for(metadata: &EDMX, d: odata::Declared) -> (r: Result<ObjectType, Error>)
    ensures
        match r {
            Ok(o) => object_fields(*metadata, odata::declared_view(d)) == Some(field_entries(o.fields@)),
            Err(e) => object_fields(*metadata, odata::declared_view(d)) is None && e is Reference,
        },
{
    let budget = odata::budget(metadata);
    let properties = odata::collect_properties(metadata, d, budget)?;
    let navigation = odata::collect_navigation(metadata, d, budget)?;
    let ghost pe = properties@.map_values(|p: Property| property_entry(p));
    let mut fields: Vec<(String, Type)> = Vec::new();
    let mut i: usize = 0;
    while i < properties.len()
        invariant
            i <= properties@.len(),
            pe == properties@.map_values(|p: Property| property_entry(p)),
            field_entries(fields@) == first_wins(pe.subrange(0, i as int)),
        decreases properties@.len() - i,
    {
        let p = &properties[i];
        proof {
            lemma_first_wins_push(pe.subrange(0, i as int), pe[i as int]);
            assert(pe.subrange(0, i as int).push(pe[i as int]) =~= pe.subrange(0, i as int + 1));
        }
        insert_first(&mut fields, p.name.clone(), Type::from_type_data(&p.type_data));
        i += 1;
    }
    assert(pe.subrange(0, i as int) =~= pe);
    let ghost mut es: Seq<(Seq<char>, TargetType)> = Seq::empty();
    let mut j: usize = 0;
    while j < navigation.len()
        invariant
            j <= navigation@.len(),
            navigation_entries(*metadata, navigation@.subrange(0, j as int)) == Some(es),
            odata::inherited_navigation(*metadata, odata::declared_view(d), odata::walk_budget(*metadata)) == Some(navigation@),
            odata::inherited_properties(*metadata, odata::declared_view(d), odata::walk_budget(*metadata)) == Some(properties@),
            pe == properties@.map_values(|p: Property| property_entry(p)),
            field_entries(fields@) == first_wins(pe + es),
        decreases navigation@.len() - j,
    {
        let n = &navigation[j];
        let q = match navigation_key_target(metadata, n) {
            Ok(q) => q,
            Err(e) => {
                proof {
                    assert(navigation@.subrange(0, j as int + 1).drop_last() =~= navigation@.subrange(0, j as int));
                    assert(navigation@.subrange(0, j as int + 1).last() == navigation@[j as int]);
                    assert(navigation_entries(*metadata, navigation@.subrange(0, j as int + 1)) is None);
                    lemma_navigation_entries_prefix(*metadata, navigation@, j as int + 1);
                }
                return Err(e);
            },
        };
        let ghost e = (n.name@, TargetType::Named(q@));
        proof {
            assert(navigation@.subrange(0, j as int + 1).drop_last() =~= navigation@.subrange(0, j as int));
            lemma_first_wins_push(pe + es, e);
            assert((pe + es).push(e) =~= pe + es.push(e));
            es = es.push(e);
        }
        insert_first(&mut fields, n.name.clone(), Type::Qualified { qualified_type: q });
        j += 1;
    }
    assert(navigation@.subrange(0, j as int) =~= navigation@);
    Ok(ObjectType { fields })
}


/// The models of named object types.
pub open spec fn object_entries(v: Seq<(String, ObjectType)>) -> Seq<
    (Seq<char>, Seq<(Seq<char>, TargetType)>),
> {
    v.map_values(|e: (String, ObjectType)| (e.0@, field_entries(e.1.fields@)))
}

/// The object type of one entity type of the schema with namespace `ns`.
pub open spec fn entity_object(doc: EDMX, ns: Seq<char>) -> spec_fn(EntityType) -> Option<
    (Seq<char>, Seq<(Seq<char>, TargetType)>),
> {
    |e: EntityType|
        match object_fields(doc, odata::entity_declarations(e)) {
            Some(fs) => Some((qualified_text(QualifiedName { schema: ns, name: e.name@ }), fs)),
            None => None,
        }
}

/// The object type of one complex type of the schema with namespace `ns`.
pub open spec fn complex_object(doc: EDMX, ns: Seq<char>) -> spec_fn(ComplexType) -> Option<
    (Seq<char>, Seq<(Seq<char>, TargetType)>),
> {
    |c: ComplexType|
        match object_fields(doc, odata::complex_declarations(c)) {
            Some(fs) => Some((qualified_text(QualifiedName { schema: ns, name: c.name@ }), fs)),
            None => None,
        }
}

/// The object types of a schema, keyed `schema.name`: its entity types, then its complex types.
pub open spec fn object_types_of(doc: EDMX, schema: odata::Schema) -> Option<
    Seq<(Seq<char>, Seq<(Seq<char>, TargetType)>)>,
> {
    match map_all(schema.entity_types@, entity_object(doc, schema.namespace@)) {
        Some(es) => match map_all(schema.complex_types@, complex_object(doc, schema.namespace@)) {
            Some(cs) => Some(es + cs),
            None => None,
        },
        None => None,
    }
}

fn object_key(ns: &String, name: &String) -> (r: String)
    ensures
        r@ == qualified_text(QualifiedName { schema: ns@, name: name@ }),
{
    types::QualifiedType { schema: ns.clone(), name: name.clone() }.to_string()
}

impl ObjectType {
    /// One object type per entity and complex type of `schema`, keyed `schema.name`.
    pub fn extract_from(metadata: &EDMX, schema: &odata::Schema) -> (r: Result<
        Vec<(String, ObjectType)>,
        Error,
    >)
        ensures
            match r {
                Ok(v) => object_types_of(*metadata, *schema) == Some(object_entries(v@)),
                Err(e) => object_types_of(*metadata, *schema) is None && e is Reference,
            },
    {
        let ghost ef = entity_object(*metadata, schema.namespace@);
        let ghost cf = complex_object(*metadata, schema.namespace@);
        let mut out: Vec<(String, ObjectType)> = Vec::new();
        let mut i: usize = 0;
        while i < schema.entity_types.len()
            invariant
                i <= schema.entity_types@.len(),
                ef == entity_object(*metadata, schema.namespace@),
                map_all(schema.entity_types@.subrange(0, i as int), ef) == Some(object_entries(out@)),
            decreases schema.entity_types@.len() - i,
        {
            let e = &schema.entity_types[i];
            proof {
                lemma_map_all_step(schema.entity_types@, ef, i as int);
            }
            match object_type_for(metadata, odata::Declared::Entity(e)) {
                Ok(o) => {
                    let ghost before = object_entries(out@);
                    out.push((object_key(&schema.namespace, &e.name), o));
                    assert(object_entries(out@) =~= before.push(object_entries(out@).last()));
                },
                Err(err) => {
                    proof {
                        lemma_map_all_prefix(schema.entity_types@, ef, i as int + 1);
                    }
                    return Err(err);
                },
            }
            i += 1;
        }
        assert(schema.entity_types@.subrange(0, i as int) =~= schema.entity_types@);
        let ghost es = object_entries(out@);
        let mut j: usize = 0;
        while j < schema.complex_types.len()
            invariant
                j <= schema.complex_types@.len(),
                cf == complex_object(*metadata, schema.namespace@),
                map_all(schema.entity_types@, ef) == Some(es),
                ef == entity_object(*metadata, schema.namespace@),
                map_all(schema.complex_types@.subrange(0, j as int), cf) matches Some(cs)
                    && object_entries(out@) == es + cs,
            decreases schema.complex_types@.len() - j,
        {
            let c = &schema.complex_types[j];
            proof {
                lemma_map_all_step(schema.complex_types@, cf, j as int);
            }
            match object_type_for(metadata, odata::Declared::Complex(c)) {
                Ok(o) => {
                    let ghost before = object_entries(out@);
                    out.push((object_key(&schema.namespace, &c.name), o));
                    assert(object_entries(out@) =~= before.push(object_entries(out@).last()));
                    assert(object_entries(out@) =~= es + map_all(
                        schema.complex_types@.subrange(0, j as int + 1),
                        cf,
                    )->0);
                },
                Err(err) => {
                    proof {
                        lemma_map_all_prefix(schema.complex_types@, cf, j as int + 1);
                    }
                    return Err(err);
                },
            }
            j += 1;
        }
        assert(schema.complex_types@.subrange(0, j as int) =~= schema.complex_types@);
        Ok(out)
    }
}

/// A collection of the target schema: an entity set with its key and relationships.
#[derive(Debug)]
pub struct Collection {
    pub name: String,
    pub key: String,
    pub collection_type: QualifiedType,
    /// Navigation property bound by the entity set, and the collection it leads to.
    pub relationships: Vec<(String, String)>,
}

/// The model of a `Collection`.
pub struct CollectionModel {
    pub name: Seq<char>,
    pub key: Seq<char>,
    pub collection_type: QualifiedName,
    pub relationships: Seq<(Seq<char>, Seq<char>)>,
}

impl View for Collection {
    type V = CollectionModel;

    open spec fn view(&self) -> CollectionModel {
        CollectionModel {
            name: self.name@,
            key: self.key@,
            collection_type: self.collection_type@,
            relationships: pair_entries(self.relationships@),
        }
    }
}

/// The binding of a navigation property as a relationship: path to target collection.
pub open spec fn binding_entry(b: odata::NavigationPropertyBinding) -> (Seq<char>, Seq<char>) {
    (b.path@, b.target@)
}

/// The key of an entity type, provided it names one of the type's own or inherited properties.
pub open spec fn checked_key(doc: EDMX, e: EntityType) -> Option<Seq<char>> {
    let d = odata::entity_declarations(e);
    match odata::key_name_of(doc, d, odata::walk_budget(doc)) {
        Some(k) => match odata::inherited_properties(doc, d, odata::walk_budget(doc)) {
            Some(ps) => if crate::lookup::named(ps, k) is Some {
                Some(k)
            } else {
                None
            },
            None => None,
        },
        None => None,
    }
}

/// The collection for an entity set: keyed by the key of its entity type.
pub open spec fn collection_of(doc: EDMX) -> spec_fn(odata::EntitySet) -> Option<CollectionModel> {
    |set: odata::EntitySet|
        match odata::entity_type_of(doc, set.entity_type@) {
            Some(e) => match checked_key(doc, e) {
                Some(k) => Some(
                    CollectionModel {
                        name: set.name@,
                        key: k,
                        collection_type: set.entity_type@,
                        relationships: first_wins(
                            set.navigation_property_bindings@.map_values(
                                |b: odata::NavigationPropertyBinding| binding_entry(b),
                            ),
                        ),
                    },
                ),
                None => None,
            },
            None => None,
        }
}

/// Where a collection named `n` goes in `m`: after every collection whose name comes before `n`.
pub open spec fn name_position(m: Seq<CollectionModel>, n: Seq<char>) -> int
    decreases m.len(),
{
    if m.len() == 0 {
        0
    } else if name_lt(m[0].name, n) {
        1 + name_position(m.drop_first(), n)
    } else {
        0
    }
}

/// `c` put into `m`: in place of the collection with the same name if there is one, else at
/// its position by name.
pub open spec fn insert_by_name(m: Seq<CollectionModel>, c: CollectionModel) -> Seq<CollectionModel> {
    if exists|i: int| 0 <= i < m.len() && (#[trigger] m[i]).name == c.name {
        m.update(choose|i: int| 0 <= i < m.len() && (#[trigger] m[i]).name == c.name, c)
    } else {
        m.insert(name_position(m, c.name), c)
    }
}

/// The collections `cs` ordered by name, one per name; a later collection replaces an earlier
/// one of the same name.
pub open spec fn by_name(cs: Seq<CollectionModel>) -> Seq<CollectionModel>
    decreases cs.len(),
{
    if cs.len() == 0 {
        Seq::empty()
    } else {
        insert_by_name(by_name(cs.drop_last()), cs.last())
    }
}

/// The names of `m` are strictly increasing.
pub open spec fn strictly_by_name(m: Seq<CollectionModel>) -> bool {
    forall|i: int| 0 <= i < m.len() - 1 ==> name_lt((#[trigger] m[i]).name, m[i + 1].name)
}

/// No two collections of `m` share a name.
pub open spec fn names_unique(m: Seq<CollectionModel>) -> bool {
    forall|i: int, j: int| 0 <= i < j < m.len() ==> (#[trigger] m[i]).name != (#[trigger] m[j]).name
}

proof fn lemma_name_position(m: Seq<CollectionModel>, n: Seq<char>, i: int)
    requires
        0 <= i <= m.len(),
        forall|j: int| 0 <= j < i ==> name_lt((#[trigger] m[j]).name, n),
        i == m.len() || !name_lt(m[i].name, n),
    ensures
        name_position(m, n) == i,
    decreases i,
{
    if i > 0 {
        assert(name_lt(m[0].name, n));
        assert forall|j: int| 0 <= j < i - 1 implies name_lt((#[trigger] m.drop_first()[j]).name, n) by {
            assert(m.drop_first()[j] == m[j + 1]);
        }
        lemma_name_position(m.drop_first(), n, i - 1);
    }
}

proof fn lemma_name_position_facts(m: Seq<CollectionModel>, n: Seq<char>)
    ensures
        0 <= name_position(m, n) <= m.len(),
        forall|j: int| 0 <= j < name_position(m, n) ==> name_lt((#[trigger] m[j]).name, n),
        name_position(m, n) < m.len() ==> !name_lt(m[name_position(m, n)].name, n),
    decreases m.len(),
{
    if m.len() > 0 && name_lt(m[0].name, n) {
        lemma_name_position_facts(m.drop_first(), n);
        assert forall|j: int| 0 <= j < name_position(m, n) implies name_lt((#[trigger] m[j]).name, n) by {
            if j > 0 {
                assert(m[j] == m.drop_first()[j - 1]);
            }
        }
        if name_position(m, n) < m.len() {
            assert(m[name_position(m, n)] == m.drop_first()[name_position(m, n) - 1]);
        }
    }
}

proof fn lemma_insert_by_name_ordered(m: Seq<CollectionModel>, c: CollectionModel)
    requires
        strictly_by_name(m),
        names_unique(m),
    ensures
        strictly_by_name(insert_by_name(m, c)),
        names_unique(insert_by_name(m, c)),
{
    let r = insert_by_name(m, c);
    if exists|i: int| 0 <= i < m.len() && (#[trigger] m[i]).name == c.name {
        let k = choose|i: int| 0 <= i < m.len() && (#[trigger] m[i]).name == c.name;
        assert forall|i: int| 0 <= i < r.len() implies (#[trigger] r[i]).name == m[i].name by {}
        assert(strictly_by_name(r)) by {
            assert forall|i: int| 0 <= i < r.len() - 1 implies name_lt((#[trigger] r[i]).name, r[i + 1].name) by {
                assert(r[i].name == m[i].name && r[i + 1].name == m[i + 1].name);
            }
        }
        assert(names_unique(r)) by {
            assert forall|i: int, j: int| 0 <= i < j < r.len() implies (#[trigger] r[i]).name != (#[trigger] r[j]).name by {
                assert(r[i].name == m[i].name && r[j].name == m[j].name);
            }
        }
    } else {
        let p = name_position(m, c.name);
        lemma_name_position_facts(m, c.name);
        if p < m.len() {
            assert(m[p].name != c.name);
            lemma_name_lt_total(m[p].name, c.name);
        }
        assert(strictly_by_name(r)) by {
            assert forall|i: int| 0 <= i < r.len() - 1 implies name_lt((#[trigger] r[i]).name, r[i + 1].name) by {
                if i < p - 1 {
                    assert(r[i] == m[i] && r[i + 1] == m[i + 1]);
                } else if i == p - 1 {
                    assert(r[i] == m[i] && r[i + 1] == c);
                } else if i == p {
                    assert(r[i] == c && r[i + 1] == m[p]);
                } else {
                    assert(r[i] == m[i - 1] && r[i + 1] == m[i]);
                }
            }
        }
        assert(names_unique(r)) by {
            assert forall|i: int, j: int| 0 <= i < j < r.len() implies (#[trigger] r[i]).name != (#[trigger] r[j]).name by {
                if i < p && j < p {
                    assert(r[i] == m[i] && r[j] == m[j]);
                } else if i < p && j == p {
                    assert(r[i] == m[i] && r[j] == c);
                } else if i < p {
                    assert(r[i] == m[i] && r[j] == m[j - 1]);
                } else if i == p {
                    assert(r[i] == c && r[j] == m[j - 1]);
                } else {
                    assert(r[i] == m[i - 1] && r[j] == m[j - 1]);
                }
            }
        }
    }
}

/// The collections that `by_name` gives are strictly ordered by name, one per name.
pub proof fn lemma_by_name_ordered(cs: Seq<CollectionModel>)
    ensures
        strictly_by_name(by_name(cs)),
        names_unique(by_name(cs)),
    decreases cs.len(),
{
    if cs.len() > 0 {
        lemma_by_name_ordered(cs.drop_last());
        lemma_insert_by_name_ordered(by_name(cs.drop_last()), cs.last());
    }
}

/// The collections of a schema, one per entity set name of its container, ordered by name.
pub open spec fn collections_of(doc: EDMX, schema: odata::Schema) -> Option<Seq<CollectionModel>> {
    match map_all(schema.entity_container.entity_sets@, collection_of(doc)) {
        Some(cs) => Some(by_name(cs)),
        None => None,
    }
}

fn insert_collection(out: &mut Vec<Collection>, c: Collection)
    requires
        names_unique(old(out)@.map_values(|c: Collection| c@)),
        strictly_by_name(old(out)@.map_values(|c: Collection| c@)),
    ensures
        final(out)@.map_values(|c: Collection| c@) == insert_by_name(
            old(out)@.map_values(|c: Collection| c@),
            c@,
        ),
{
    let ghost m = out@.map_values(|c: Collection| c@);
    let mut i: usize = 0;
    while i < out.len()
        invariant
            i <= out@.len(),
            m == out@.map_values(|c: Collection| c@),
            m == old(out)@.map_values(|c: Collection| c@),
            names_unique(m),
            forall|j: int| 0 <= j < i ==> (#[trigger] m[j]).name != c.name@,
        decreases out@.len() - i,
    {
        if out[i].name == c.name {
            proof {
                assert(m[i as int].name == c@.name);
                let k = choose|k: int| 0 <= k < m.len() && (#[trigger] m[k]).name == c@.name;
                assert(k == i) by {
                    if k < i {
                        assert(m[k].name != m[i as int].name);
                    } else if k > i {
                        assert(m[i as int].name != m[k].name);
                    }
                }
            }
            out[i] = c;
            assert(out@.map_values(|c: Collection| c@) =~= m.update(i as int, c@));
            assert(insert_by_name(m, c@) == m.update(i as int, c@));
            return;
        }
        i += 1;
    }
    let mut p: usize = 0;
    while p < out.len() && str_less(out[p].name.as_str(), c.name.as_str())
        invariant
            p <= out@.len(),
            m == out@.map_values(|c: Collection| c@),
            m == old(out)@.map_values(|c: Collection| c@),
            forall|j: int| 0 <= j < m.len() ==> (#[trigger] m[j]).name != c.name@,
            forall|j: int| 0 <= j < p ==> name_lt((#[trigger] m[j]).name, c.name@),
        decreases out@.len() - p,
    {
        p += 1;
    }
    proof {
        lemma_name_position(m, c@.name, p as int);
    }
    out.insert(p, c);
    assert(out@.map_values(|c: Collection| c@) =~= m.insert(p as int, c@));
}

fn checked_key_of(metadata: &EDMX, entity: &EntityType) -> (r: Result<String, Error>)
    ensures
        match r {
            Ok(k) => checked_key(*metadata, *entity) == Some(k@),
            Err(e) => checked_key(*metadata, *entity) is None && e is Reference,
        },
{
    let key = entity.key_name(metadata)?;
    let fields = entity.fields(metadata)?;
    match find_named(&fields, key.as_str()) {
        Some(_) => Ok(key),
        None => Err(Error::Reference(key)),
    }
}

/// Every entity type of the schema has a key in its ancestry, naming one of its properties.
pub open spec fn keys_resolve(doc: EDMX, schema: odata::Schema) -> bool {
    forall|i: int|
        0 <= i < schema.entity_types@.len() ==> checked_key(doc, #[trigger] schema.entity_types@[i])
            is Some
}

/// Checks that every entity type of the schema has a key naming one of its properties.
pub fn check_keys(metadata: &EDMX, schema: &odata::Schema) -> (r: Result<(), Error>)
    ensures
        match r {
            Ok(_) => keys_resolve(*metadata, *schema),
            Err(e) => !keys_resolve(*metadata, *schema) && e is Reference,
        },
{
    let mut i: usize = 0;
    while i < schema.entity_types.len()
        invariant
            i <= schema.entity_types@.len(),
            forall|j: int| 0 <= j < i ==> checked_key(*metadata, #[trigger] schema.entity_types@[j]) is Some,
        decreases schema.entity_types@.len() - i,
    {
        checked_key_of(metadata, &schema.entity_types[i])?;
        i += 1;
    }
    Ok(())
}

fn insert_pair(pairs: &mut Vec<(String, String)>, key: String, value: String)
    ensures
        pair_entries(final(pairs)@) == (if has_key(pair_entries(old(pairs)@), key@) {
            pair_entries(old(pairs)@)
        } else {
            pair_entries(old(pairs)@).push((key@, value@))
        }),
{
    let mut i: usize = 0;
    while i < pairs.len()
        invariant
            i <= pairs@.len(),
            forall|j: int| 0 <= j < i ==> (#[trigger] pair_entries(pairs@)[j]).0 != key@,
        decreases pairs@.len() - i,
    {
        if pairs[i].0 == key {
            assert(pair_entries(pairs@)[i as int].0 == key@);
            return;
        }
        i += 1;
    }
    let ghost before = pair_entries(pairs@);
    pairs.push((key, value));
    assert(pair_entries(pairs@) =~= before.push((key@, value@)));
}

fn collection_for(metadata: &EDMX, set: &odata::EntitySet) -> (r: Result<Collection, Error>)
    ensures
        match r {
            Ok(c) => collection_of(*metadata)(*set) == Some(c@),
            Err(e) => collection_of(*metadata)(*set) is None && e is Reference,
        },
{
    let entity = match metadata.entity_type(&set.entity_type) {
        Some(e) => e,
        None => {
            return Err(Error::Reference(set.entity_type.to_string()));
        },
    };
    let key = checked_key_of(metadata, entity)?;
    let bindings = &set.navigation_property_bindings;
    let ghost be = bindings@.map_values(|b: odata::NavigationPropertyBinding| binding_entry(b));
    let mut relationships: Vec<(String, String)> = Vec::new();
    let mut i: usize = 0;
    while i < bindings.len()
        invariant
            i <= bindings@.len(),
            be == bindings@.map_values(|b: odata::NavigationPropertyBinding| binding_entry(b)),
            pair_entries(relationships@) == first_wins(be.subrange(0, i as int)),
        decreases bindings@.len() - i,
    {
        proof {
            lemma_first_wins_push(be.subrange(0, i as int), be[i as int]);
            assert(be.subrange(0, i as int).push(be[i as int]) =~= be.subrange(0, i as int + 1));
        }
        insert_pair(&mut relationships, bindings[i].path.clone(), bindings[i].target.clone());
        i += 1;
    }
    assert(be.subrange(0, i as int) =~= be);
    Ok(
        Collection {
            name: set.name.clone(),
            key,
            collection_type: target_name(&set.entity_type),
            relationships,
        },
    )
}

impl Collection {
    /// One collection per entity set name of the schema's container, ordered by name; of two
    /// sets with one name, the later is kept.
    pub fn extract_from(metadata: &EDMX, schema: &odata::Schema) -> (r: Result<Vec<Collection>, Error>)
        ensures
            match r {
                Ok(v) => collections_of(*metadata, *schema) == Some(v@.map_values(|c: Collection| c@))
                    && strictly_by_name(v@.map_values(|c: Collection| c@))
                    && names_unique(v@.map_values(|c: Collection| c@)),
                Err(e) => collections_of(*metadata, *schema) is None && e is Reference,
            },
    {
        let sets = &schema.entity_container.entity_sets;
        let ghost f = collection_of(*metadata);
        let ghost mut all: Seq<CollectionModel> = Seq::empty();
        let mut out: Vec<Collection> = Vec::new();
        let mut i: usize = 0;
        while i < sets.len()
            invariant
                i <= sets@.len(),
                sets@ == schema.entity_container.entity_sets@,
                f == collection_of(*metadata),
                map_all(sets@.subrange(0, i as int), f) == Some(all),
                out@.map_values(|c: Collection| c@) == by_name(all),
            decreases sets@.len() - i,
        {
            proof {
                lemma_map_all_step(sets@, f, i as int);
                lemma_by_name_ordered(all);
            }
            match collection_for(metadata, &sets[i]) {
                Ok(c) => {
                    proof {
                        assert(all.push(c@).drop_last() =~= all);
                        all = all.push(c@);
                    }
                    insert_collection(&mut out, c);
                },
                Err(e) => {
                    proof {
                        lemma_map_all_prefix(sets@, f, i as int + 1);
                    }
                    return Err(e);
                },
            }
            i += 1;
        }
        assert(sets@.subrange(0, i as int) =~= sets@);
        proof {
            lemma_by_name_ordered(all);
        }
        Ok(out)
    }
}


/// A function of the target schema: named arguments and a result type.
#[derive(Debug)]
pub struct Function {
    pub name: String,
    pub arguments: Vec<(String, Type)>,
    pub result_type: Type,
}

/// A procedure of the target schema: named arguments and a result type.
#[derive(Debug)]
pub struct Procedure {
    pub name: String,
    pub arguments: Vec<(String, Type)>,
    pub result_type: Type,
}

/// The model of a function or procedure.
pub struct OperationModel {
    pub name: Seq<char>,
    pub arguments: Seq<(Seq<char>, TargetType)>,
    pub result_type: TargetType,
}

impl View for Function {
    type V = OperationModel;

    open spec fn view(&self) -> OperationModel {
        OperationModel {
            name: self.name@,
            arguments: field_entries(self.arguments@),
            result_type: self.result_type@,
        }
    }
}

impl View for Procedure {
    type V = OperationModel;

    open spec fn view(&self) -> OperationModel {
        OperationModel {
            name: self.name@,
            arguments: field_entries(self.arguments@),
            result_type: self.result_type@,
        }
    }
}

/// A parameter as an argument: its name and translated type.
pub open spec fn parameter_entry(p: odata::Parameter) -> (Seq<char>, TargetType) {
    (p.name@, translate(p.type_data.inner@, p.type_data.nullable))
}

/// The arguments of an operation; the first parameter of a name wins.
pub open spec fn arguments_of(ps: Seq<odata::Parameter>) -> Seq<(Seq<char>, TargetType)> {
    first_wins(ps.map_values(|p: odata::Parameter| parameter_entry(p)))
}

/// The target function for an OData function.
pub open spec fn function_of(f: odata::Function) -> OperationModel {
    OperationModel {
        name: f.name@,
        arguments: arguments_of(f.parameters@),
        result_type: translate(f.return_type.inner@, f.return_type.nullable),
    }
}

/// The target functions of a schema, one per OData function.
pub open spec fn functions_of(schema: odata::Schema) -> Seq<OperationModel> {
    schema.functions@.map_values(|f: odata::Function| function_of(f))
}

/// The target procedures for a sequence of actions: those with a return type.
pub open spec fn procedures_from(actions: Seq<odata::Action>) -> Seq<OperationModel>
    decreases actions.len(),
{
    if actions.len() == 0 {
        Seq::empty()
    } else {
        let rest = procedures_from(actions.drop_last());
        let a = actions.last();
        match a.return_type {
            Some(t) => rest.push(
                OperationModel {
                    name: a.name@,
                    arguments: arguments_of(a.parameters@),
                    result_type: translate(t.inner@, t.nullable),
                },
            ),
            None => rest,
        }
    }
}

/// The target procedures of a schema.
pub open spec fn procedures_of(schema: odata::Schema) -> Seq<OperationModel> {
    procedures_from(schema.actions@)
}

fn arguments_for(parameters: &Vec<odata::Parameter>) -> (r: Vec<(String, Type)>)
    ensures
        field_entries(r@) == arguments_of(parameters@),
{
    let ghost pe = parameters@.map_values(|p: odata::Parameter| parameter_entry(p));
    let mut out: Vec<(String, Type)> = Vec::new();
    let mut i: usize = 0;
    while i < parameters.len()
        invariant
            i <= parameters@.len(),
            pe == parameters@.map_values(|p: odata::Parameter| parameter_entry(p)),
            field_entries(out@) == first_wins(pe.subrange(0, i as int)),
        decreases parameters@.len() - i,
    {
        proof {
            lemma_first_wins_push(pe.subrange(0, i as int), pe[i as int]);
            assert(pe.subrange(0, i as int).push(pe[i as int]) =~= pe.subrange(0, i as int + 1));
        }
        let p = &parameters[i];
        insert_first(&mut out, p.name.clone(), Type::from_type_data(&p.type_data));
        i += 1;
    }
    assert(pe.subrange(0, i as int) =~= pe);
    out
}

impl Function {
    /// One target function per function of the schema.
    pub fn extract_from(schema: &odata::Schema) -> (r: Vec<Function>)
        ensures
            r@.map_values(|f: Function| f@) == functions_of(*schema),
    {
        let mut out: Vec<Function> = Vec::new();
        let mut i: usize = 0;
        while i < schema.functions.len()
            invariant
                i <= schema.functions@.len(),
                out@.map_values(|f: Function| f@) == schema.functions@.subrange(0, i as int).map_values(
                    |f: odata::Function| function_of(f),
                ),
            decreases schema.functions@.len() - i,
        {
            let f = &schema.functions[i];
            let ghost before = out@.map_values(|f: Function| f@);
            out.push(
                Function {
                    name: f.name.clone(),
                    arguments: arguments_for(&f.parameters),
                    result_type: Type::from_type_data(&f.return_type),
                },
            );
            assert(out@.map_values(|f: Function| f@) =~= before.push(out@.last()@));
            assert(out@.last()@ == function_of(schema.functions@[i as int]));
            assert(schema.functions@.subrange(0, i as int + 1).map_values(
                |f: odata::Function| function_of(f),
            ) =~= schema.functions@.subrange(0, i as int).map_values(
                |f: odata::Function| function_of(f),
            ).push(function_of(schema.functions@[i as int])));
            i += 1;
        }
        assert(schema.functions@.subrange(0, i as int) =~= schema.functions@);
        out
    }
}

impl Procedure {
    /// One target procedure per action of the schema that declares a return type; actions
    /// without one are dropped.
    pub fn extract_from(schema: &odata::Schema) -> (r: Vec<Procedure>)
        ensures
            r@.map_values(|p: Procedure| p@) == procedures_of(*schema),
    {
        let mut out: Vec<Procedure> = Vec::new();
        let mut i: usize = 0;
        while i < schema.actions.len()
            invariant
                i <= schema.actions@.len(),
                out@.map_values(|p: Procedure| p@) == procedures_from(
                    schema.actions@.subrange(0, i as int),
                ),
            decreases schema.actions@.len() - i,
        {
            let a = &schema.actions[i];
            assert(schema.actions@.subrange(0, i as int + 1).drop_last() =~= schema.actions@.subrange(
                0,
                i as int,
            ));
            if let Some(t) = &a.return_type {
                let ghost before = out@.map_values(|p: Procedure| p@);
                out.push(
                    Procedure {
                        name: a.name.clone(),
                        arguments: arguments_for(&a.parameters),
                        result_type: Type::from_type_data(t),
                    },
                );
                assert(out@.map_values(|p: Procedure| p@) =~= before.push(out@.last()@));
            }
            i += 1;
        }
        assert(schema.actions@.subrange(0, i as int) =~= schema.actions@);
        out
    }
}

/// The target schema derived from a metadata document.
#[derive(Debug)]
pub struct Schema {
    pub collections: Vec<Collection>,
    pub scalar_types: Vec<ScalarType>,
    pub object_types: Vec<(String, ObjectType)>,
    pub functions: Vec<Function>,
    pub procedures: Vec<Procedure>,
}

/// The model of a target `Schema`.
pub struct SchemaModel {
    pub collections: Seq<CollectionModel>,
    pub scalar_types: Set<Seq<char>>,
    pub object_types: Seq<(Seq<char>, Seq<(Seq<char>, TargetType)>)>,
    pub functions: Seq<OperationModel>,
    pub procedures: Seq<OperationModel>,
}

impl View for Schema {
    type V = SchemaModel;

    open spec fn view(&self) -> SchemaModel {
        SchemaModel {
            collections: self.collections@.map_values(|c: Collection| c@),
            scalar_types: scalar_names(self.scalar_types@).to_set(),
            object_types: object_entries(self.object_types@),
            functions: self.functions@.map_values(|f: Function| f@),
            procedures: self.procedures@.map_values(|p: Procedure| p@),
        }
    }
}

impl Named for Collection {
    open spec fn spec_name(&self) -> Seq<char> {
        self.name@
    }

    fn name_str(&self) -> (r: &str) {
        self.name.as_str()
    }
}

impl Named for Function {
    open spec fn spec_name(&self) -> Seq<char> {
        self.name@
    }

    fn name_str(&self) -> (r: &str) {
        self.name.as_str()
    }
}

impl Named for Procedure {
    open spec fn spec_name(&self) -> Seq<char> {
        self.name@
    }

    fn name_str(&self) -> (r: &str) {
        self.name.as_str()
    }
}

impl Schema {
    /// The collection named `name`.
    pub fn collection(&self, name: &str) -> (r: Option<&Collection>)
        ensures
            match r {
                Some(c) => crate::lookup::named(self.collections@, name@) == Some(*c),
                None => crate::lookup::named(self.collections@, name@) is None,
            },
    {
        find_named(&self.collections, name)
    }

    /// The function named `name`.
    pub fn function(&self, name: &str) -> (r: Option<&Function>)
        ensures
            match r {
                Some(f) => crate::lookup::named(self.functions@, name@) == Some(*f),
                None => crate::lookup::named(self.functions@, name@) is None,
            },
    {
        find_named(&self.functions, name)
    }

    /// The procedure named `name`.
    pub fn procedure(&self, name: &str) -> (r: Option<&Procedure>)
        ensures
            match r {
                Some(p) => crate::lookup::named(self.procedures@, name@) == Some(*p),
                None => crate::lookup::named(self.procedures@, name@) is None,
            },
    {
        find_named(&self.procedures, name)
    }
}

/// Adds the scalar types of `more` that `out` does not hold yet.
pub(crate) fn merge_scalars(out: &mut Vec<ScalarType>, more: Vec<ScalarType>)
    requires
        scalar_names(old(out)@).no_duplicates(),
    ensures
        scalar_names(final(out)@).no_duplicates(),
        scalar_names(final(out)@).to_set() == scalar_names(old(out)@).to_set().union(
            scalar_names(more@).to_set(),
        ),
{
    let ghost start = scalar_names(out@).to_set();
    let mut i: usize = 0;
    while i < more.len()
        invariant
            i <= more@.len(),
            scalar_names(out@).no_duplicates(),
            scalar_names(out@).to_set() == start.union(
                scalar_names(more@.subrange(0, i as int)).to_set(),
            ),
        decreases more@.len() - i,
    {
        let ghost before = scalar_names(out@);
        let ghost text = more@[i as int].0@;
        let name = more[i].0.clone();
        if !has_scalar(out, &name) {
            out.push(ScalarType(name));
            assert(scalar_names(out@) =~= before.push(text));
            assert(before.push(text).to_set() =~= before.to_set().insert(text)) by {
                assert(before.push(text)[before.len() as int] == text);
                assert forall|x: Seq<char>| before.push(text).contains(x) implies before.to_set().insert(text).contains(x) by {
                    let j = choose|j: int| 0 <= j < before.push(text).len() && before.push(text)[j] == x;
                    if j < before.len() {
                        assert(before[j] == x);
                    }
                }
                assert forall|x: Seq<char>| before.contains(x) implies before.push(text).contains(x) by {
                    let j = choose|j: int| 0 <= j < before.len() && before[j] == x;
                    assert(before.push(text)[j] == x);
                }
            }
        }
        let ghost prefix = scalar_names(more@.subrange(0, i as int));
        assert(scalar_names(more@.subrange(0, i as int + 1)) =~= prefix.push(text));
        assert(prefix.push(text).to_set() =~= prefix.to_set().insert(text)) by {
            assert(prefix.push(text)[prefix.len() as int] == text);
            assert forall|x: Seq<char>| prefix.push(text).contains(x) implies prefix.to_set().insert(text).contains(x) by {
                let j = choose|j: int| 0 <= j < prefix.push(text).len() && prefix.push(text)[j] == x;
                if j < prefix.len() {
                    assert(prefix[j] == x);
                }
            }
            assert forall|x: Seq<char>| prefix.contains(x) implies prefix.push(text).contains(x) by {
                let j = choose|j: int| 0 <= j < prefix.len() && prefix[j] == x;
                assert(prefix.push(text)[j] == x);
            }
        }
        assert(scalar_names(out@).to_set() =~= start.union(
            scalar_names(more@.subrange(0, i as int + 1)).to_set(),
        ));
        i += 1;
    }
    assert(more@.subrange(0, i as int) =~= more@);
}


/// A target schema with nothing in it.
pub open spec fn empty_schema_model() -> SchemaModel {
    SchemaModel {
        collections: Seq::empty(),
        scalar_types: Set::empty(),
        object_types: Seq::empty(),
        functions: Seq::empty(),
        procedures: Seq::empty(),
    }
}

/// The target schema for a sequence of OData schemas: what each contributes, in order.
pub open spec fn translate_schemas(doc: EDMX, schemas: Seq<odata::Schema>) -> Option<SchemaModel>
    decreases schemas.len(),
{
    if schemas.len() == 0 {
        Some(empty_schema_model())
    } else {
        let s = schemas.last();
        match translate_schemas(doc, schemas.drop_last()) {
            Some(m) => if !keys_resolve(doc, s) {
                None
            } else { match collections_of(doc, s) {
                Some(cs) => match object_types_of(doc, s) {
                    Some(os) => Some(
                        SchemaModel {
                            collections: m.collections + cs,
                            scalar_types: m.scalar_types.union(scalar_types_of(s)),
                            object_types: m.object_types + os,
                            functions: m.functions + functions_of(s),
                            procedures: m.procedures + procedures_of(s),
                        },
                    ),
                    None => None,
                },
                None => None,
            } },
            None => None,
        }
    }
}

/// The target schema for a whole metadata document.
pub open spec fn translate_document(doc: EDMX) -> Option<SchemaModel> {
    translate_schemas(doc, doc.data_services.schema@)
}

/// Translation is a function of the document alone: equal documents give equal target schemas.
pub proof fn lemma_translation_deterministic(first: EDMX, second: EDMX)
    requires
        first == second,
    ensures
        translate_document(first) == translate_document(second),
{
}

pub proof fn lemma_translate_schemas_prefix(doc: EDMX, schemas: Seq<odata::Schema>, k: int)
    requires
        0 <= k <= schemas.len(),
        translate_schemas(doc, schemas.subrange(0, k)) is None,
    ensures
        translate_schemas(doc, schemas) is None,
    decreases schemas.len() - k,
{
    if k < schemas.len() {
        assert(schemas.subrange(0, k + 1).drop_last() =~= schemas.subrange(0, k));
        lemma_translate_schemas_prefix(doc, schemas, k + 1);
    } else {
        assert(schemas.subrange(0, k) =~= schemas);
    }
}

} // verus!
