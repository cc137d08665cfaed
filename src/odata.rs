//! The metadata model: a typed representation of a parsed CSDL document, with lookups by name
//! and resolution of the base-type inheritance chain.

use crate::error::Error;
use crate::lookup::{find_named, named, Named};
use crate::text::str_eq;
use crate::types::{QualifiedName, QualifiedType, TypeData};
use vstd::prelude::*;

verus! {

/// The schema version; only `4.0` and `4.01` are accepted.
#[derive(Debug)]
pub struct Version(String);

/// The versions of the document format that can be read.
pub open spec fn supported_version(v: Seq<char>) -> bool {
    v == seq!['4', '.', '0'] || v == seq!['4', '.', '0', '1']
}

impl Version {
    /// Accepts `4.0` and `4.01`; anything else is a document error.
    pub fn new(version: String) -> (r: Result<Version, Error>)
        ensures
            match r {
                Ok(v) => supported_version(version@) && v@ == version@,
                Err(e) => !supported_version(version@) && e is Document,
            },
    {
        proof {
            reveal_strlit("4.0");
            reveal_strlit("4.01");
        }
        let ok = str_eq(version.as_str(), "4.0") || str_eq(version.as_str(), "4.01");
        assert(ok == supported_version(version@)) by {
            assert("4.0"@ =~= seq!['4', '.', '0']);
            assert("4.01"@ =~= seq!['4', '.', '0', '1']);
        }
        if ok {
            Ok(Version(version))
        } else {
            Err(Error::Document(version))
        }
    }

    /// The version text.
    pub fn as_str(&self) -> (r: &str)
        ensures
            r@ == self@,
    {
        self.0.as_str()
    }
}

impl View for Version {
    type V = Seq<char>;

    closed spec fn view(&self) -> Seq<char> {
        self.0@
    }
}

/// The top-level element of a metadata document.
#[derive(Debug)]
pub struct EDMX {
    pub version: Version,
    pub edmx: Option<String>,
    pub data_services: DataServices,
}

/// The element holding every schema exposed by the API.
#[derive(Debug)]
pub struct DataServices {
    pub schema: Vec<Schema>,
}

/// One schema of the document, identified by its namespace.
#[derive(Debug)]
pub struct Schema {
    pub namespace: String,
    pub xmlns: Option<String>,
    pub entity_types: Vec<EntityType>,
    pub complex_types: Vec<ComplexType>,
    pub enum_types: Vec<EnumType>,
    pub functions: Vec<Function>,
    pub actions: Vec<Action>,
    pub entity_container: EntityContainer,
}

/// A keyed structured type; it may extend another entity type.
#[derive(Debug)]
pub struct EntityType {
    pub name: String,
    pub key: Option<Key>,
    pub base_type: Option<QualifiedType>,
    pub properties: Vec<Property>,
    pub navigation_properties: Vec<NavigationProperty>,
}

/// An unkeyed structured type (a value type); it may extend another type.
#[derive(Debug)]
pub struct ComplexType {
    pub name: String,
    pub base_type: Option<QualifiedType>,
    pub properties: Vec<Property>,
    pub navigation_properties: Vec<NavigationProperty>,
}

/// A field of a structured type.
#[derive(Debug)]
pub struct Property {
    pub name: String,
    pub type_data: TypeData,
}

/// A typed relationship field of a structured type.
#[derive(Debug)]
pub struct NavigationProperty {
    pub name: String,
    pub type_data: TypeData,
}

/// The key of an entity type.
#[derive(Debug)]
pub struct Key {
    pub property_ref: PropertyRef,
}

/// The property used as a key.
#[derive(Debug)]
pub struct PropertyRef {
    pub name: String,
}

/// A named, queryable collection of entities of one entity type.
#[derive(Debug)]
pub struct EntitySet {
    pub name: String,
    pub entity_type: QualifiedType,
    pub navigation_property_bindings: Vec<NavigationPropertyBinding>,
}

/// Binds a navigation property (`path`) to a target entity set.
#[derive(Debug)]
pub struct NavigationPropertyBinding {
    pub path: String,
    pub target: String,
}

/// The entity sets, singletons and imports of a schema.
#[derive(Debug)]
pub struct EntityContainer {
    pub name: String,
    pub entity_sets: Vec<EntitySet>,
    pub singletons: Vec<Singleton>,
    pub function_imports: Vec<FunctionImport>,
    pub action_imports: Vec<ActionImport>,
}

/// A single entity exposed by the container.
#[derive(Debug)]
pub struct Singleton {
    pub name: String,
    pub type_data: TypeData,
    pub navigation_property_bindings: Vec<NavigationPropertyBinding>,
}

/// An enumeration with its members.
#[derive(Debug)]
pub struct EnumType {
    pub name: String,
    pub members: Vec<Member>,
}

/// A member of an enumeration and its value.
#[derive(Debug)]
pub struct Member {
    pub name: String,
    pub value: u32,
}

/// A side-effect free operation.
#[derive(Debug)]
pub struct Function {
    pub name: String,
    pub parameters: Vec<Parameter>,
    pub return_type: TypeData,
    pub entity_set_path: Option<String>,
    pub is_bound: bool,
}

/// A parameter of a function or action.
#[derive(Debug)]
pub struct Parameter {
    pub name: String,
    pub type_data: TypeData,
}

/// A declaration that a function is available in the container.
#[derive(Debug)]
pub struct FunctionImport {
    pub name: String,
    pub function: String,
    pub entity_set: Option<String>,
}

/// An operation that may have side effects, with an optional result.
#[derive(Debug)]
pub struct Action {
    pub name: String,
    pub is_bound: bool,
    pub parameters: Vec<Parameter>,
    pub return_type: Option<TypeData>,
    pub entity_set_path: Option<String>,
}

/// A declaration that an action is available in the container.
#[derive(Debug)]
pub struct ActionImport {
    pub name: String,
    pub action: String,
    pub entity_set: Option<String>,
}

impl Named for Schema {
    open spec fn spec_name(&self) -> Seq<char> {
        self.namespace@
    }

    fn name_str(&self) -> (r: &str) {
        self.namespace.as_str()
    }
}

impl Named for EntityType {
    open spec fn spec_name(&self) -> Seq<char> {
        self.name@
    }

    fn name_str(&self) -> (r: &str) {
        self.name.as_str()
    }
}

impl Named for ComplexType {
    open spec fn spec_name(&self) -> Seq<char> {
        self.name@
    }

    fn name_str(&self) -> (r: &str) {
        self.name.as_str()
    }
}

impl Named for EntitySet {
    open spec fn spec_name(&self) -> Seq<char> {
        self.name@
    }

    fn name_str(&self) -> (r: &str) {
        self.name.as_str()
    }
}

impl Named for EnumType {
    open spec fn spec_name(&self) -> Seq<char> {
        self.name@
    }

    fn name_str(&self) -> (r: &str) {
        self.name.as_str()
    }
}

impl Named for Function {
    open spec fn spec_name(&self) -> Seq<char> {
        self.name@
    }

    fn name_str(&self) -> (r: &str) {
        self.name.as_str()
    }
}

impl Named for Action {
    open spec fn spec_name(&self) -> Seq<char> {
        self.name@
    }

    fn name_str(&self) -> (r: &str) {
        self.name.as_str()
    }
}

impl Named for Property {
    open spec fn spec_name(&self) -> Seq<char> {
        self.name@
    }

    fn name_str(&self) -> (r: &str) {
        self.name.as_str()
    }
}

impl Clone for Property {
    fn clone(&self) -> (r: Self)
        ensures
            r == *self,
    {
        Property { name: self.name.clone(), type_data: self.type_data.clone() }
    }
}

impl Clone for NavigationProperty {
    fn clone(&self) -> (r: Self)
        ensures
            r == *self,
    {
        NavigationProperty { name: self.name.clone(), type_data: self.type_data.clone() }
    }
}

/// The schema with namespace `ns`.
pub open spec fn schema_of(doc: EDMX, ns: Seq<char>) -> Option<Schema> {
    named(doc.data_services.schema@, ns)
}

/// The entity type that `q` names.
pub open spec fn entity_type_of(doc: EDMX, q: QualifiedName) -> Option<EntityType> {
    match schema_of(doc, q.schema) {
        Some(s) => named(s.entity_types@, q.name),
        None => None,
    }
}

/// The complex type that `q` names.
pub open spec fn complex_type_of(doc: EDMX, q: QualifiedName) -> Option<ComplexType> {
    match schema_of(doc, q.schema) {
        Some(s) => named(s.complex_types@, q.name),
        None => None,
    }
}

impl DataServices {
    /// The schema with namespace `name`.
    pub fn schema(&self, name: &str) -> (r: Option<&Schema>)
        ensures
            match r {
                Some(s) => named(self.schema@, name@) == Some(*s),
                None => named(self.schema@, name@) is None,
            },
    {
        find_named(&self.schema, name)
    }
}

impl EDMX {
    /// The schema with namespace `name`.
    pub fn schema(&self, name: &str) -> (r: Option<&Schema>)
        ensures
            match r {
                Some(s) => schema_of(*self, name@) == Some(*s),
                None => schema_of(*self, name@) is None,
            },
    {
        self.data_services.schema(name)
    }

    /// The complex type that `qualified_type` names.
    pub fn complex_type(&self, qualified_type: &QualifiedType) -> (r: Option<&ComplexType>)
        ensures
            match r {
                Some(c) => complex_type_of(*self, qualified_type@) == Some(*c),
                None => complex_type_of(*self, qualified_type@) is None,
            },
    {
        match self.schema(qualified_type.schema.as_str()) {
            Some(s) => s.complex_type(qualified_type.name.as_str()),
            None => None,
        }
    }

    /// The entity type that `qualified_type` names.
    pub fn entity_type(&self, qualified_type: &QualifiedType) -> (r: Option<&EntityType>)
        ensures
            match r {
                Some(e) => entity_type_of(*self, qualified_type@) == Some(*e),
                None => entity_type_of(*self, qualified_type@) is None,
            },
    {
        match self.schema(qualified_type.schema.as_str()) {
            Some(s) => s.entity_type(qualified_type.name.as_str()),
            None => None,
        }
    }
}

impl Schema {
    /// The complex type named `name`.
    pub fn complex_type(&self, name: &str) -> (r: Option<&ComplexType>)
        ensures
            match r {
                Some(c) => named(self.complex_types@, name@) == Some(*c),
                None => named(self.complex_types@, name@) is None,
            },
    {
        find_named(&self.complex_types, name)
    }

    /// The entity set named `name`.
    pub fn entity_set(&self, name: &str) -> (r: Option<&EntitySet>)
        ensures
            match r {
                Some(e) => named(self.entity_container.entity_sets@, name@) == Some(*e),
                None => named(self.entity_container.entity_sets@, name@) is None,
            },
    {
        find_named(&self.entity_container.entity_sets, name)
    }

    /// The entity type named `name`.
    pub fn entity_type(&self, name: &str) -> (r: Option<&EntityType>)
        ensures
            match r {
                Some(e) => named(self.entity_types@, name@) == Some(*e),
                None => named(self.entity_types@, name@) is None,
            },
    {
        find_named(&self.entity_types, name)
    }

    /// The enum type named `name`.
    pub fn enum_type(&self, name: &str) -> (r: Option<&EnumType>)
        ensures
            match r {
                Some(e) => named(self.enum_types@, name@) == Some(*e),
                None => named(self.enum_types@, name@) is None,
            },
    {
        find_named(&self.enum_types, name)
    }

    /// The function named `name`.
    pub fn function(&self, name: &str) -> (r: Option<&Function>)
        ensures
            match r {
                Some(f) => named(self.functions@, name@) == Some(*f),
                None => named(self.functions@, name@) is None,
            },
    {
        find_named(&self.functions, name)
    }

    /// The action named `name`.
    pub fn action(&self, name: &str) -> (r: Option<&Action>)
        ensures
            match r {
                Some(a) => named(self.actions@, name@) == Some(*a),
                None => named(self.actions@, name@) is None,
            },
    {
        find_named(&self.actions, name)
    }
}

impl Property {
    /// The qualified type beneath any collection layers of the property's type.
    pub fn underlying_type(&self) -> (r: &QualifiedType)
        ensures
            r@ == crate::types::underlying(self.type_data.inner@),
    {
        self.type_data.underlying_type()
    }
}

/// What a structured type declares itself, apart from what it inherits.
pub struct Declarations {
    pub properties: Seq<Property>,
    pub navigation_properties: Seq<NavigationProperty>,
    pub base_type: Option<QualifiedName>,
    pub key: Option<Seq<char>>,
}

/// The model of an optional qualified type.
pub open spec fn qualified_opt(q: Option<QualifiedType>) -> Option<QualifiedName> {
    match q {
        Some(q) => Some(q@),
        None => None,
    }
}

/// What an entity type declares itself.
pub open spec fn entity_declarations(e: EntityType) -> Declarations {
    Declarations {
        properties: e.properties@,
        navigation_properties: e.navigation_properties@,
        base_type: qualified_opt(e.base_type),
        key: match e.key {
            Some(k) => Some(k.property_ref.name@),
            None => None,
        },
    }
}

/// What a complex type declares itself; it has no key.
pub open spec fn complex_declarations(c: ComplexType) -> Declarations {
    Declarations {
        properties: c.properties@,
        navigation_properties: c.navigation_properties@,
        base_type: qualified_opt(c.base_type),
        key: None,
    }
}

/// A base type: looked up first as an entity type, then as a complex type.
pub open spec fn resolve(doc: EDMX, q: QualifiedName) -> Option<Declarations> {
    match entity_type_of(doc, q) {
        Some(e) => Some(entity_declarations(e)),
        None => match complex_type_of(doc, q) {
            Some(c) => Some(complex_declarations(c)),
            None => None,
        },
    }
}

/// The number of entity and complex types declared in `schemas`.
pub open spec fn count_types(schemas: Seq<Schema>) -> nat
    decreases schemas.len(),
{
    if schemas.len() == 0 {
        0
    } else {
        count_types(schemas.drop_last()) + schemas.last().entity_types@.len()
            + schemas.last().complex_types@.len()
    }
}

/// How many base types a walk up the inheritance chain may resolve. A chain that needs more
/// steps than the document declares types visits some type twice: it is a cycle.
pub open spec fn walk_budget(doc: EDMX) -> nat {
    let n = count_types(doc.data_services.schema@);
    if n > usize::MAX {
        usize::MAX as nat
    } else {
        n
    }
}

/// The properties of `d` and of its ancestors, its own first; `None` when a base type cannot
/// be found or the chain is longer than `fuel` steps.
pub open spec fn inherited_properties(doc: EDMX, d: Declarations, fuel: nat) -> Option<Seq<Property>>
    decreases fuel,
{
    match d.base_type {
        None => Some(d.properties),
        Some(b) => if fuel == 0 {
            None
        } else {
            match resolve(doc, b) {
                Some(p) => match inherited_properties(doc, p, (fuel - 1) as nat) {
                    Some(rest) => Some(d.properties + rest),
                    None => None,
                },
                None => None,
            }
        },
    }
}

/// The navigation properties of `d` and of its ancestors, its own first.
pub open spec fn inherited_navigation(doc: EDMX, d: Declarations, fuel: nat) -> Option<
    Seq<NavigationProperty>,
>
    decreases fuel,
{
    match d.base_type {
        None => Some(d.navigation_properties),
        Some(b) => if fuel == 0 {
            None
        } else {
            match resolve(doc, b) {
                Some(p) => match inherited_navigation(doc, p, (fuel - 1) as nat) {
                    Some(rest) => Some(d.navigation_properties + rest),
                    None => None,
                },
                None => None,
            }
        },
    }
}

/// The key name declared by `d` or by its nearest ancestor that declares one.
pub open spec fn key_name_of(doc: EDMX, d: Declarations, fuel: nat) -> Option<Seq<char>>
    decreases fuel,
{
    match d.key {
        Some(k) => Some(k),
        None => match d.base_type {
            None => None,
            Some(b) => if fuel == 0 {
                None
            } else {
                match resolve(doc, b) {
                    Some(p) => key_name_of(doc, p, (fuel - 1) as nat),
                    None => None,
                }
            },
        },
    }
}

/// The type of the key: the type of the property that the nearest key names, looked up among
/// all the properties of the type that declares that key.
pub open spec fn key_type_of(doc: EDMX, d: Declarations, fuel: nat) -> Option<QualifiedName>
    decreases fuel,
{
    match d.key {
        Some(k) => match inherited_properties(doc, d, walk_budget(doc)) {
            Some(ps) => match named(ps, k) {
                Some(p) => Some(crate::types::underlying(p.type_data.inner@)),
                None => None,
            },
            None => None,
        },
        None => match d.base_type {
            None => None,
            Some(b) => if fuel == 0 {
                None
            } else {
                match resolve(doc, b) {
                    Some(p) => key_type_of(doc, p, (fuel - 1) as nat),
                    None => None,
                }
            },
        },
    }
}

/// `d` is what some entity or complex type of `s` declares.
pub open spec fn declared_at(s: Schema, d: Declarations) -> bool {
    (exists|j: int|
        0 <= j < s.entity_types@.len() && entity_declarations(#[trigger] s.entity_types@[j]) == d)
        || (exists|j: int|
        0 <= j < s.complex_types@.len() && complex_declarations(#[trigger] s.complex_types@[j])
            == d)
}

/// `d` is what some entity or complex type of `schemas` declares.
pub open spec fn declared_in(schemas: Seq<Schema>, d: Declarations) -> bool {
    exists|i: int| 0 <= i < schemas.len() && #[trigger] declared_at(schemas[i], d)
}

proof fn lemma_named_member<T: Named>(s: Seq<T>, name: Seq<char>)
    requires
        named(s, name) is Some,
    ensures
        exists|j: int| 0 <= j < s.len() && s[j] == named(s, name)->0,
{
    crate::lookup::lemma_found_in(s, crate::lookup::name_is::<T>(name));
}

proof fn lemma_resolve_declared(doc: EDMX, q: QualifiedName)
    requires
        resolve(doc, q) is Some,
    ensures
        declared_in(doc.data_services.schema@, resolve(doc, q)->0),
{
    let schemas = doc.data_services.schema@;
    lemma_named_member(schemas, q.schema);
    let i = choose|i: int| 0 <= i < schemas.len() && schemas[i] == schema_of(doc, q.schema)->0;
    let s = schemas[i];
    match entity_type_of(doc, q) {
        Some(e) => {
            lemma_named_member(s.entity_types@, q.name);
            let j = choose|j: int| 0 <= j < s.entity_types@.len() && s.entity_types@[j] == e;
            assert(entity_declarations(schemas[i].entity_types@[j]) == resolve(doc, q)->0);
            assert(declared_at(schemas[i], resolve(doc, q)->0));
        },
        None => {
            let c = complex_type_of(doc, q)->0;
            lemma_named_member(s.complex_types@, q.name);
            let j = choose|j: int| 0 <= j < s.complex_types@.len() && s.complex_types@[j] == c;
            assert(complex_declarations(schemas[i].complex_types@[j]) == resolve(doc, q)->0);
            assert(declared_at(schemas[i], resolve(doc, q)->0));
        },
    }
}

proof fn lemma_count_one(schemas: Seq<Schema>, d: Declarations)
    requires
        declared_in(schemas, d),
    ensures
        count_types(schemas) >= 1,
    decreases schemas.len(),
{
    let n = schemas.len() - 1;
    let i = choose|i: int|
        0 <= i < schemas.len() && declared_at(schemas[i], d);
    if i < n {
        assert(schemas.drop_last()[i] == schemas[i]);
        lemma_count_one(schemas.drop_last(), d);
    }
}

proof fn lemma_count_two(schemas: Seq<Schema>, d1: Declarations, d2: Declarations)
    requires
        declared_in(schemas, d1),
        declared_in(schemas, d2),
        d1 != d2,
    ensures
        count_types(schemas) >= 2,
    decreases schemas.len(),
{
    let n = schemas.len() - 1;
    let i1 = choose|i: int|
        0 <= i < schemas.len() && declared_at(schemas[i], d1);
    let i2 = choose|i: int|
        0 <= i < schemas.len() && declared_at(schemas[i], d2);
    let rest = schemas.drop_last();
    if i1 < n {
        assert(rest[i1] == schemas[i1]);
    }
    if i2 < n {
        assert(rest[i2] == schemas[i2]);
    }
    if i1 < n && i2 < n {
        lemma_count_two(rest, d1, d2);
    } else if i1 < n {
        lemma_count_one(rest, d1);
    } else if i2 < n {
        lemma_count_one(rest, d2);
    } else {
        let s = schemas[n];
        if exists|j: int| 0 <= j < s.entity_types@.len() && entity_declarations(#[trigger] s.entity_types@[j]) == d1 {
            let j1 = choose|j: int| 0 <= j < s.entity_types@.len() && entity_declarations(#[trigger] s.entity_types@[j]) == d1;
            if exists|j: int| 0 <= j < s.entity_types@.len() && entity_declarations(#[trigger] s.entity_types@[j]) == d2 {
                let j2 = choose|j: int| 0 <= j < s.entity_types@.len() && entity_declarations(#[trigger] s.entity_types@[j]) == d2;
                assert(j1 != j2);
            }
        } else if exists|j: int| 0 <= j < s.complex_types@.len() && complex_declarations(#[trigger] s.complex_types@[j]) == d2 {
            let j1 = choose|j: int| 0 <= j < s.complex_types@.len() && complex_declarations(#[trigger] s.complex_types@[j]) == d1;
            let j2 = choose|j: int| 0 <= j < s.complex_types@.len() && complex_declarations(#[trigger] s.complex_types@[j]) == d2;
            assert(j1 != j2);
        }
    }
}

/// For `A extends B extends C` (`C` has no base type): the properties of `A` are its own, then
/// `B`'s, then `C`'s, and a lookup by name among them meets `A`'s own declaration first. These
/// are the values that `fields` computes; keys play no part.
pub proof fn lemma_inherited_fields(doc: EDMX, a: Declarations)
    requires
        a.base_type matches Some(qb) && resolve(doc, qb) matches Some(b) && b.base_type matches Some(
            qc,
        ) && resolve(doc, qc) matches Some(c) && c.base_type is None,
    ensures
        ({
            let b = resolve(doc, a.base_type->0)->0;
            let c = resolve(doc, b.base_type->0)->0;
            let budget = walk_budget(doc);
            &&& inherited_properties(doc, a, budget) == Some(
                a.properties + (b.properties + c.properties),
            )
            &&& inherited_properties(doc, b, budget) == Some(b.properties + c.properties)
            &&& inherited_navigation(doc, a, budget) == Some(
                a.navigation_properties + (b.navigation_properties + c.navigation_properties),
            )
            &&& forall|n: Seq<char>|
                named(a.properties, n) is Some ==> #[trigger] named(
                    a.properties + (b.properties + c.properties),
                    n,
                ) == named(a.properties, n)
        }),
{
    let b = resolve(doc, a.base_type->0)->0;
    let c = resolve(doc, b.base_type->0)->0;
    lemma_budget_two(doc, a);
    reveal_with_fuel(inherited_properties, 3);
    reveal_with_fuel(inherited_navigation, 3);
    assert forall|n: Seq<char>| named(a.properties, n) is Some implies #[trigger] named(
        a.properties + (b.properties + c.properties),
        n,
    ) == named(a.properties, n) by {
        crate::lookup::lemma_find_first_prefix(
            a.properties,
            b.properties + c.properties,
            crate::lookup::name_is::<Property>(n),
        );
    }
}

/// For `A extends B extends C` where only `C` declares a key: `A` and `B` both take `C`'s key,
/// as `key_name` computes it.
pub proof fn lemma_inherited_key(doc: EDMX, a: Declarations)
    requires
        a.base_type matches Some(qb) && resolve(doc, qb) matches Some(b) && b.base_type matches Some(
            qc,
        ) && resolve(doc, qc) matches Some(c) && c.base_type is None && c.key is Some,
        a.key is None,
        resolve(doc, a.base_type->0)->0.key is None,
    ensures
        ({
            let b = resolve(doc, a.base_type->0)->0;
            let c = resolve(doc, b.base_type->0)->0;
            &&& key_name_of(doc, a, walk_budget(doc)) == c.key
            &&& key_name_of(doc, b, walk_budget(doc)) == c.key
        }),
{
    lemma_budget_two(doc, a);
    reveal_with_fuel(key_name_of, 3);
}

/// The two base types of a two-level chain are distinct declarations of the document, so the
/// walk may take at least two steps.
proof fn lemma_budget_two(doc: EDMX, a: Declarations)
    requires
        a.base_type matches Some(qb) && resolve(doc, qb) matches Some(b) && b.base_type matches Some(
            qc,
        ) && resolve(doc, qc) matches Some(c) && c.base_type is None,
    ensures
        walk_budget(doc) >= 2,
{
    let b = resolve(doc, a.base_type->0)->0;
    let c = resolve(doc, b.base_type->0)->0;
    lemma_resolve_declared(doc, a.base_type->0);
    lemma_resolve_declared(doc, b.base_type->0);
    lemma_count_two(doc.data_services.schema@, b, c);
}

/// A structured type of the document, entity or complex.
#[derive(Clone, Copy)]
pub(crate) enum Declared<'a> {
    Entity(&'a EntityType),
    Complex(&'a ComplexType),
}

pub(crate) open spec fn declared_view(d: Declared) -> Declarations {
    match d {
        Declared::Entity(e) => entity_declarations(*e),
        Declared::Complex(c) => complex_declarations(*c),
    }
}

impl<'a> Declared<'a> {
    fn properties(&self) -> (r: &'a Vec<Property>)
        ensures
            r@ == declared_view(*self).properties,
    {
        match self {
            Declared::Entity(e) => &e.properties,
            Declared::Complex(c) => &c.properties,
        }
    }

    fn navigation_properties(&self) -> (r: &'a Vec<NavigationProperty>)
        ensures
            r@ == declared_view(*self).navigation_properties,
    {
        match self {
            Declared::Entity(e) => &e.navigation_properties,
            Declared::Complex(c) => &c.navigation_properties,
        }
    }

    fn base_type(&self) -> (r: &'a Option<QualifiedType>)
        ensures
            qualified_opt(*r) == declared_view(*self).base_type,
    {
        match self {
            Declared::Entity(e) => &e.base_type,
            Declared::Complex(c) => &c.base_type,
        }
    }

    fn key(&self) -> (r: Option<&'a String>)
        ensures
            match r {
                Some(k) => declared_view(*self).key == Some(k@),
                None => declared_view(*self).key is None,
            },
    {
        match self {
            Declared::Entity(e) => match &e.key {
                Some(k) => Some(&k.property_ref.name),
                None => None,
            },
            Declared::Complex(_) => None,
        }
    }
}

pub(crate) fn resolve_base<'a>(metadata: &'a EDMX, q: &QualifiedType) -> (r: Option<Declared<'a>>)
    ensures
        match r {
            Some(d) => resolve(*metadata, q@) == Some(declared_view(d)),
            None => resolve(*metadata, q@) is None,
        },
{
    match metadata.entity_type(q) {
        Some(e) => Some(Declared::Entity(e)),
        None => match metadata.complex_type(q) {
            Some(c) => Some(Declared::Complex(c)),
            None => None,
        },
    }
}

pub(crate) fn budget(metadata: &EDMX) -> (r: usize)
    ensures
        r == walk_budget(*metadata),
{
    let schemas = &metadata.data_services.schema;
    let mut total: usize = 0;
    let mut i: usize = 0;
    while i < schemas.len()
        invariant
            i <= schemas@.len(),
            total == (if count_types(schemas@.subrange(0, i as int)) > usize::MAX {
                usize::MAX as nat
            } else {
                count_types(schemas@.subrange(0, i as int))
            }),
        decreases schemas@.len() - i,
    {
        assert(schemas@.subrange(0, i as int + 1).drop_last() =~= schemas@.subrange(0, i as int));
        total = total.saturating_add(schemas[i].entity_types.len());
        total = total.saturating_add(schemas[i].complex_types.len());
        i += 1;
    }
    assert(schemas@.subrange(0, i as int) =~= schemas@);
    total
}

fn missing_base(q: &QualifiedType) -> (r: Error)
    ensures
        r is Reference,
{
    Error::Reference(q.to_string())
}

pub(crate) fn collect_properties(metadata: &EDMX, d: Declared, fuel: usize) -> (r: Result<Vec<Property>, Error>)
    ensures
        match r {
            Ok(v) => inherited_properties(*metadata, declared_view(d), fuel as nat) == Some(v@),
            Err(e) => inherited_properties(*metadata, declared_view(d), fuel as nat) is None
                && e is Reference,
        },
    decreases fuel,
{
    let mut out = d.properties().clone();
    assert(out@ =~= declared_view(d).properties);
    match d.base_type() {
        None => Ok(out),
        Some(b) => {
            if fuel == 0 {
                return Err(missing_base(b));
            }
            match resolve_base(metadata, b) {
                None => Err(missing_base(b)),
                Some(p) => match collect_properties(metadata, p, fuel - 1) {
                    Ok(mut rest) => {
                        out.append(&mut rest);
                        Ok(out)
                    },
                    Err(e) => Err(e),
                },
            }
        },
    }
}

pub(crate) fn collect_navigation(metadata: &EDMX, d: Declared, fuel: usize) -> (r: Result<
    Vec<NavigationProperty>,
    Error,
>)
    ensures
        match r {
            Ok(v) => inherited_navigation(*metadata, declared_view(d), fuel as nat) == Some(v@),
            Err(e) => inherited_navigation(*metadata, declared_view(d), fuel as nat) is None
                && e is Reference,
        },
    decreases fuel,
{
    let mut out = d.navigation_properties().clone();
    assert(out@ =~= declared_view(d).navigation_properties);
    match d.base_type() {
        None => Ok(out),
        Some(b) => {
            if fuel == 0 {
                return Err(missing_base(b));
            }
            match resolve_base(metadata, b) {
                None => Err(missing_base(b)),
                Some(p) => match collect_navigation(metadata, p, fuel - 1) {
                    Ok(mut rest) => {
                        out.append(&mut rest);
                        Ok(out)
                    },
                    Err(e) => Err(e),
                },
            }
        },
    }
}

fn find_key_name(metadata: &EDMX, d: Declared, name: &String, fuel: usize) -> (r: Result<String, Error>)
    ensures
        match r {
            Ok(k) => key_name_of(*metadata, declared_view(d), fuel as nat) == Some(k@),
            Err(e) => key_name_of(*metadata, declared_view(d), fuel as nat) is None
                && e is Reference,
        },
    decreases fuel,
{
    match d.key() {
        Some(k) => Ok(k.clone()),
        None => match d.base_type() {
            None => Err(Error::Reference(name.clone())),
            Some(b) => {
                if fuel == 0 {
                    return Err(missing_base(b));
                }
                match resolve_base(metadata, b) {
                    None => Err(missing_base(b)),
                    Some(p) => find_key_name(metadata, p, name, fuel - 1),
                }
            },
        },
    }
}

fn find_key_type(metadata: &EDMX, d: Declared, name: &String, fuel: usize) -> (r: Result<
    QualifiedType,
    Error,
>)
    ensures
        match r {
            Ok(q) => key_type_of(*metadata, declared_view(d), fuel as nat) == Some(q@),
            Err(e) => key_type_of(*metadata, declared_view(d), fuel as nat) is None
                && e is Reference,
        },
    decreases fuel,
{
    match d.key() {
        Some(k) => {
            let properties = collect_properties(metadata, d, budget(metadata))?;
            match find_named(&properties, k.as_str()) {
                Some(p) => Ok(p.underlying_type().clone()),
                None => Err(Error::Reference(k.clone())),
            }
        },
        None => match d.base_type() {
            None => Err(Error::Reference(name.clone())),
            Some(b) => {
                if fuel == 0 {
                    return Err(missing_base(b));
                }
                match resolve_base(metadata, b) {
                    None => Err(missing_base(b)),
                    Some(p) => find_key_type(metadata, p, name, fuel - 1),
                }
            },
        },
    }
}

impl EntityType {
    /// All the properties of the type and of its chain of base types, its own first.
    pub fn fields(&self, metadata: &EDMX) -> (r: Result<Vec<Property>, Error>)
        ensures
            match r {
                Ok(v) => inherited_properties(*metadata, entity_declarations(*self), walk_budget(*metadata)) == Some(v@),
                Err(e) => inherited_properties(*metadata, entity_declarations(*self), walk_budget(*metadata)) is None
                    && e is Reference,
            },
    {
        collect_properties(metadata, Declared::Entity(self), budget(metadata))
    }

    /// All the navigation properties of the type and of its chain of base types, its own first.
    pub fn navigation_properties(&self, metadata: &EDMX) -> (r: Result<Vec<NavigationProperty>, Error>)
        ensures
            match r {
                Ok(v) => inherited_navigation(*metadata, entity_declarations(*self), walk_budget(*metadata)) == Some(v@),
                Err(e) => inherited_navigation(*metadata, entity_declarations(*self), walk_budget(*metadata)) is None
                    && e is Reference,
            },
    {
        collect_navigation(metadata, Declared::Entity(self), budget(metadata))
    }

    /// The name of the key, declared by the type or by its nearest ancestor that declares one.
    pub fn key_name(&self, metadata: &EDMX) -> (r: Result<String, Error>)
        ensures
            match r {
                Ok(k) => key_name_of(*metadata, entity_declarations(*self), walk_budget(*metadata)) == Some(k@),
                Err(e) => key_name_of(*metadata, entity_declarations(*self), walk_budget(*metadata)) is None
                    && e is Reference,
            },
    {
        find_key_name(metadata, Declared::Entity(self), &self.name, budget(metadata))
    }

    /// The type of the key property.
    pub fn key_type(&self, metadata: &EDMX) -> (r: Result<QualifiedType, Error>)
        ensures
            match r {
                Ok(q) => key_type_of(*metadata, entity_declarations(*self), walk_budget(*metadata)) == Some(q@),
                Err(e) => key_type_of(*metadata, entity_declarations(*self), walk_budget(*metadata)) is None
                    && e is Reference,
            },
    {
        find_key_type(metadata, Declared::Entity(self), &self.name, budget(metadata))
    }
}

impl ComplexType {
    /// All the properties of the type and of its chain of base types, its own first.
    pub fn fields(&self, metadata: &EDMX) -> (r: Result<Vec<Property>, Error>)
        ensures
            match r {
                Ok(v) => inherited_properties(*metadata, complex_declarations(*self), walk_budget(*metadata)) == Some(v@),
                Err(e) => inherited_properties(*metadata, complex_declarations(*self), walk_budget(*metadata)) is None
                    && e is Reference,
            },
    {
        collect_properties(metadata, Declared::Complex(self), budget(metadata))
    }

    /// All the navigation properties of the type and of its chain of base types, its own first.
    pub fn navigation_properties(&self, metadata: &EDMX) -> (r: Result<Vec<NavigationProperty>, Error>)
        ensures
            match r {
                Ok(v) => inherited_navigation(*metadata, complex_declarations(*self), walk_budget(*metadata)) == Some(v@),
                Err(e) => inherited_navigation(*metadata, complex_declarations(*self), walk_budget(*metadata)) is None
                    && e is Reference,
            },
    {
        collect_navigation(metadata, Declared::Complex(self), budget(metadata))
    }
}

/// What `str::to_lowercase` makes of a text.
pub uninterp spec fn lower_of(s: Seq<char>) -> Seq<char>;

/// Relies on `str::to_lowercase`: the result depends on the characters alone, and the empty
/// text stays empty.
#[verifier::external_body]
fn lowercase(s: &str) -> (r: String)
    ensures
        r@ == lower_of(s@),
        s@.len() == 0 ==> r@.len() == 0,
{
    s.to_lowercase()
}

/// The boolean that an already lower-cased attribute text spells: exactly `true` or `false`.
pub fn bool_from_lowercase(t: &str) -> (r: Result<bool, Error>)
    ensures
        match r {
            Ok(b) => (b && t@ == "true"@) || (!b && t@ == "false"@),
            Err(e) => t@ != "true"@ && t@ != "false"@ && e is Document,
        },
{
    if str_eq(t, "true") {
        Ok(true)
    } else if str_eq(t, "false") {
        Ok(false)
    } else {
        Err(Error::Document(String::from_str(t)))
    }
}

/// Reads a boolean attribute such as `Nullable`: `true` or `false`, in any case.
pub fn str_to_bool(s: &str) -> (r: Result<bool, Error>)
    ensures
        match r {
            Ok(b) => (b && lower_of(s@) == "true"@) || (!b && lower_of(s@) == "false"@),
            Err(e) => lower_of(s@) != "true"@ && lower_of(s@) != "false"@ && e is Document,
        },
{
    let lower = lowercase(s);
    bool_from_lowercase(lower.as_str())
}

/// The nullability of a type whose declaration does not state it.
pub fn default_true() -> (r: bool)
    ensures
        r,
{
    true
}

} // verus!
