//! OData's textual type syntax: `Collection(NS.Type)` and dotted qualified names.
//!
//! The grammar is
//! `type_name := "Collection(" type_name ")" | component ("." component)+`,
//! where a component is a non-empty run of characters other than `.`, `(` and `)`. The last
//! component is the type's name and the components before it, joined by `.`, its schema.

use crate::error::Error;
use vstd::prelude::*;

verus! {

/// A type defined in some schema.
#[derive(Debug)]
pub struct QualifiedType {
    pub schema: String,
    pub name: String,
}

/// An OData type, ignoring nullability: a schema-qualified type or a collection of a type.
#[derive(Debug)]
pub enum Type {
    /// A collection of a specific type.
    Collection { elements: Box<Type> },
    /// A singular type defined in some schema.
    Qualified { qualified_type: QualifiedType },
}

/// A type as it is used by a property or parameter, with its nullability.
#[derive(Debug)]
pub struct TypeData {
    pub inner: Type,
    pub nullable: bool,
}

/// The model of a `QualifiedType`.
pub struct QualifiedName {
    pub schema: Seq<char>,
    pub name: Seq<char>,
}

/// The model of a `Type`.
pub enum TypeName {
    Collection(Box<TypeName>),
    Qualified(QualifiedName),
}

impl View for QualifiedType {
    type V = QualifiedName;

    open spec fn view(&self) -> QualifiedName {
        QualifiedName { schema: self.schema@, name: self.name@ }
    }
}

/// The model of a `Type`.
pub open spec fn type_view(t: Type) -> TypeName
    decreases t,
{
    match t {
        Type::Collection { elements } => TypeName::Collection(Box::new(type_view(*elements))),
        Type::Qualified { qualified_type } => TypeName::Qualified(qualified_type@),
    }
}

impl View for Type {
    type V = TypeName;

    open spec fn view(&self) -> TypeName {
        type_view(*self)
    }
}

/// The qualified type beneath any number of collection layers.
pub open spec fn underlying(t: TypeName) -> QualifiedName
    decreases t,
{
    match t {
        TypeName::Collection(e) => underlying(*e),
        TypeName::Qualified(q) => q,
    }
}

/// The text that opens a collection type.
pub open spec fn collection_prefix() -> Seq<char> {
    seq!['C', 'o', 'l', 'l', 'e', 'c', 't', 'i', 'o', 'n', '(']
}

/// `schema.name`.
pub open spec fn qualified_text(q: QualifiedName) -> Seq<char> {
    q.schema + seq!['.'] + q.name
}

/// The textual form of a type.
pub open spec fn type_text(t: TypeName) -> Seq<char>
    decreases t,
{
    match t {
        TypeName::Collection(e) => collection_prefix() + type_text(*e) + seq![')'],
        TypeName::Qualified(q) => qualified_text(q),
    }
}

/// A character that may appear in a component.
pub open spec fn is_name_char(c: char) -> bool {
    c != '.' && c != '(' && c != ')'
}

/// A non-empty run of name characters.
pub open spec fn is_component(s: Seq<char>) -> bool {
    s.len() > 0 && forall|i: int| 0 <= i < s.len() ==> is_name_char(#[trigger] s[i])
}

/// One or more components joined by `.`.
pub open spec fn is_namespace(s: Seq<char>) -> bool {
    &&& s.len() > 0
    &&& s[0] != '.'
    &&& s.last() != '.'
    &&& forall|i: int| 0 <= i < s.len() ==> #[trigger] s[i] != '(' && s[i] != ')'
    &&& forall|i: int| 0 <= i < s.len() - 1 ==> !(#[trigger] s[i] == '.' && s[i + 1] == '.')
}

/// A qualified name that the grammar can produce.
pub open spec fn valid_qualified(q: QualifiedName) -> bool {
    is_namespace(q.schema) && is_component(q.name)
}

/// A type whose text the grammar accepts.
pub open spec fn valid_type(t: TypeName) -> bool
    decreases t,
{
    match t {
        TypeName::Collection(e) => valid_type(*e),
        TypeName::Qualified(q) => valid_qualified(q),
    }
}

/// The position of the last `.` in `s`, or -1.
pub open spec fn last_dot(s: Seq<char>) -> int
    decreases s.len(),
{
    if s.len() == 0 {
        -1
    } else if s.last() == '.' {
        s.len() - 1
    } else {
        last_dot(s.drop_last())
    }
}

/// A qualified name read from `s`: split at the last `.`.
pub open spec fn parse_qualified(s: Seq<char>) -> Option<QualifiedName> {
    let k = last_dot(s);
    if k < 0 {
        None
    } else {
        let q = QualifiedName { schema: s.subrange(0, k), name: s.subrange(k + 1, s.len() as int) };
        if valid_qualified(q) {
            Some(q)
        } else {
            None
        }
    }
}

/// `s` has the outer shape `Collection(...)`.
pub open spec fn is_collection_text(s: Seq<char>) -> bool {
    s.len() >= 12 && s.subrange(0, 11) == collection_prefix() && s.last() == ')'
}

/// The type that the grammar reads from `s`, if it accepts `s`.
pub open spec fn parse_type(s: Seq<char>) -> Option<TypeName>
    decreases s.len(),
{
    if is_collection_text(s) {
        match parse_type(s.subrange(11, s.len() - 1)) {
            Some(e) => Some(TypeName::Collection(Box::new(e))),
            None => None,
        }
    } else {
        match parse_qualified(s) {
            Some(q) => Some(TypeName::Qualified(q)),
            None => None,
        }
    }
}

proof fn lemma_last_dot_facts(s: Seq<char>)
    ensures
        -1 <= last_dot(s) < s.len(),
        last_dot(s) >= 0 ==> s[last_dot(s)] == '.',
        forall|j: int| last_dot(s) < j < s.len() ==> s[j] != '.',
    decreases s.len(),
{
    if s.len() > 0 && s.last() != '.' {
        lemma_last_dot_facts(s.drop_last());
        assert forall|j: int| last_dot(s) < j < s.len() implies s[j] != '.' by {
            if j < s.len() - 1 {
                assert(s[j] == s.drop_last()[j]);
            }
        }
    }
}

proof fn lemma_last_dot_split(a: Seq<char>, b: Seq<char>)
    requires
        forall|i: int| 0 <= i < b.len() ==> b[i] != '.',
    ensures
        last_dot(a + seq!['.'] + b) == a.len(),
    decreases b.len(),
{
    let s = a + seq!['.'] + b;
    if b.len() > 0 {
        assert(s.drop_last() =~= a + seq!['.'] + b.drop_last());
        lemma_last_dot_split(a, b.drop_last());
    }
}

proof fn lemma_text_nonempty(t: TypeName)
    ensures
        type_text(t).len() >= 1,
    decreases t,
{
    match t {
        TypeName::Collection(e) => {},
        TypeName::Qualified(q) => {},
    }
}

/// Printing a grammar-valid type and reading the text back gives the type again.
pub proof fn lemma_parse_type_text(t: TypeName)
    requires
        valid_type(t),
    ensures
        parse_type(type_text(t)) == Some(t),
    decreases t,
{
    let s = type_text(t);
    match t {
        TypeName::Collection(e) => {
            lemma_text_nonempty(*e);
            assert(s.subrange(0, 11) =~= collection_prefix());
            assert(s.subrange(11, s.len() - 1) =~= type_text(*e));
            lemma_parse_type_text(*e);
        },
        TypeName::Qualified(q) => {
            lemma_last_dot_split(q.schema, q.name);
            if is_collection_text(s) {
                assert(s.subrange(0, 11)[10] == '(');
                assert(s[10] == '(');
                if 10 < q.schema.len() {
                    assert(s[10] == q.schema[10]);
                } else if 10 > q.schema.len() {
                    assert(s[10] == q.name[10 - q.schema.len() - 1]);
                }
            }
            assert(s.subrange(0, q.schema.len() as int) =~= q.schema);
            assert(s.subrange(q.schema.len() as int + 1, s.len() as int) =~= q.name);
        },
    }
}

/// Whatever the grammar reads from `s` is a valid type whose text is `s` again.
pub proof fn lemma_type_text_parse(s: Seq<char>)
    requires
        parse_type(s) is Some,
    ensures
        valid_type(parse_type(s)->0),
        type_text(parse_type(s)->0) == s,
    decreases s.len(),
{
    if is_collection_text(s) {
        let inner = s.subrange(11, s.len() - 1);
        lemma_type_text_parse(inner);
        assert(s =~= collection_prefix() + inner + seq![')']);
    } else {
        let k = last_dot(s);
        lemma_last_dot_facts(s);
        assert(s =~= s.subrange(0, k) + seq!['.'] + s.subrange(k + 1, s.len() as int));
    }
}


fn copy_type(t: &Type) -> (r: Type)
    ensures
        r == *t,
    decreases t,
{
    match t {
        Type::Collection { elements } => Type::Collection { elements: Box::new(copy_type(elements)) },
        Type::Qualified { qualified_type } => Type::Qualified {
            qualified_type: qualified_type.clone(),
        },
    }
}

impl Clone for QualifiedType {
    fn clone(&self) -> (r: Self)
        ensures
            r == *self,
    {
        QualifiedType { schema: self.schema.clone(), name: self.name.clone() }
    }
}

impl Clone for Type {
    fn clone(&self) -> (r: Self)
        ensures
            r == *self,
    {
        copy_type(self)
    }
}

impl Clone for TypeData {
    fn clone(&self) -> (r: Self)
        ensures
            r == *self,
    {
        TypeData { inner: self.inner.clone(), nullable: self.nullable }
    }
}

/// `s` begins with `Collection(`.
fn starts_with_collection(s: &str, n: usize) -> (r: bool)
    requires
        n == s@.len(),
        n >= 11,
    ensures
        r == (s@.subrange(0, 11) == collection_prefix()),
{
    let prefix = "Collection(";
    proof {
        reveal_strlit("Collection(");
    }
    assert(prefix@ =~= collection_prefix());
    let mut i: usize = 0;
    while i < 11
        invariant
            i <= 11,
            n == s@.len(),
            n >= 11,
            prefix@ == collection_prefix(),
            forall|j: int| 0 <= j < i ==> s@[j] == prefix@[j],
        decreases 11 - i,
    {
        if s.get_char(i) != prefix.get_char(i) {
            assert(s@.subrange(0, 11)[i as int] != collection_prefix()[i as int]);
            return false;
        }
        i += 1;
    }
    assert(s@.subrange(0, 11) =~= collection_prefix());
    true
}

/// Every character of `s` from `from` to `to` is a name character.
fn all_name_chars(s: &str, from: usize, to: usize) -> (r: bool)
    requires
        from <= to <= s@.len(),
    ensures
        r == forall|i: int| from <= i < to ==> is_name_char(#[trigger] s@[i]),
{
    let mut i = from;
    while i < to
        invariant
            from <= i <= to <= s@.len(),
            forall|j: int| from <= j < i ==> is_name_char(#[trigger] s@[j]),
        decreases to - i,
    {
        let c = s.get_char(i);
        if c == '.' || c == '(' || c == ')' {
            return false;
        }
        i += 1;
    }
    true
}

/// The first `to` characters of `s` form one or more components joined by `.`.
fn is_namespace_prefix(s: &str, to: usize) -> (r: bool)
    requires
        to <= s@.len(),
    ensures
        r == is_namespace(s@.subrange(0, to as int)),
{
    let ghost t = s@.subrange(0, to as int);
    if to == 0 {
        return false;
    }
    if s.get_char(0) == '.' || s.get_char(to - 1) == '.' {
        return false;
    }
    let mut i: usize = 0;
    while i < to
        invariant
            i <= to <= s@.len(),
            t == s@.subrange(0, to as int),
            forall|j: int| 0 <= j < i ==> #[trigger] t[j] != '(' && t[j] != ')',
            forall|j: int| 0 <= j < i && j < to - 1 ==> !(#[trigger] t[j] == '.' && t[j + 1] == '.'),
        decreases to - i,
    {
        let c = s.get_char(i);
        if c == '(' || c == ')' {
            assert(t[i as int] == c);
            return false;
        }
        if c == '.' && i + 1 < to && s.get_char(i + 1) == '.' {
            assert(t[i as int] == '.' && t[i + 1] == '.');
            return false;
        }
        i += 1;
    }
    true
}

/// Reads a qualified name: the text is split at its last `.`.
fn read_qualified(s: &str) -> (r: Option<QualifiedType>)
    ensures
        match r {
            Some(q) => parse_qualified(s@) == Some(q@),
            None => parse_qualified(s@) is None,
        },
{
    let n = s.unicode_len();
    let mut i = n;
    while i > 0 && s.get_char(i - 1) != '.'
        invariant
            i <= n == s@.len(),
            forall|j: int| i <= j < n ==> s@[j] != '.',
        decreases i,
    {
        i -= 1;
    }
    proof {
        lemma_last_dot_facts(s@);
    }
    if i == 0 {
        assert(last_dot(s@) < 0) by {
            if last_dot(s@) >= 0 {
                assert(s@[last_dot(s@)] == '.');
            }
        }
        return None;
    }
    let k = i - 1;
    assert(last_dot(s@) == k) by {
        if last_dot(s@) < k {
            assert(s@[k as int] == '.');
        }
    }
    let name_ok = k + 1 < n && all_name_chars(s, k + 1, n);
    let ghost name = s@.subrange(k + 1, n as int);
    assert(name_ok == is_component(name)) by {
        if name_ok {
            assert forall|j: int| 0 <= j < name.len() implies is_name_char(#[trigger] name[j]) by {
                assert(name[j] == s@[k + 1 + j]);
            }
        } else if k + 1 < n {
            let w = choose|j: int| k + 1 <= j < n && !is_name_char(#[trigger] s@[j]);
            assert(!is_name_char(name[w - k - 1]));
        }
    }
    if !name_ok || !is_namespace_prefix(s, k) {
        return None;
    }
    Some(
        QualifiedType {
            schema: String::from_str(s.substring_char(0, k)),
            name: String::from_str(s.substring_char(k + 1, n)),
        },
    )
}

impl QualifiedType {
    /// Reads a qualified type name; a collection type is refused.
    pub fn parse(s: &str) -> (r: Result<QualifiedType, Error>)
        ensures
            match r {
                Ok(q) => parse_type(s@) == Some(TypeName::Qualified(q@)),
                Err(e) => !(parse_type(s@) matches Some(TypeName::Qualified(_)))
                    && (e matches Error::TypeGrammar(text) && text@ == s@),
            },
    {
        match Type::parse(s) {
            Ok(Type::Qualified { qualified_type }) => Ok(qualified_type),
            _ => Err(Error::TypeGrammar(String::from_str(s))),
        }
    }

    /// The text `schema.name`.
    pub fn to_string(&self) -> (r: String)
        ensures
            r@ == qualified_text(self@),
    {
        let mut r = self.schema.clone();
        r.append(".");
        proof {
            reveal_strlit(".");
        }
        r.append(self.name.as_str());
        r
    }
}

impl Type {
    /// Reads a type name.
    pub fn parse(s: &str) -> (r: Result<Type, Error>)
        ensures
            match r {
                Ok(t) => parse_type(s@) == Some(t@),
                Err(e) => parse_type(s@) is None && (e matches Error::TypeGrammar(text) && text@ == s@),
            },
        decreases s@.len(),
    {
        let n = s.unicode_len();
        if n >= 12 && starts_with_collection(s, n) && s.get_char(n - 1) == ')' {
            let inner = s.substring_char(11, n - 1);
            match Type::parse(inner) {
                Ok(elements) => Ok(Type::Collection { elements: Box::new(elements) }),
                Err(_) => Err(Error::TypeGrammar(String::from_str(s))),
            }
        } else {
            match read_qualified(s) {
                Some(qualified_type) => Ok(Type::Qualified { qualified_type }),
                None => Err(Error::TypeGrammar(String::from_str(s))),
            }
        }
    }

    /// The textual form: `Collection(...)` around the qualified name `schema.name`.
    pub fn to_string(&self) -> (r: String)
        ensures
            r@ == type_text(self@),
        decreases self,
    {
        match self {
            Type::Collection { elements } => {
                let mut r = String::from_str("Collection(");
                proof {
                    reveal_strlit("Collection(");
                    reveal_strlit(")");
                }
                assert("Collection("@ =~= collection_prefix());
                let inner = elements.to_string();
                r.append(inner.as_str());
                r.append(")");
                r
            },
            Type::Qualified { qualified_type } => qualified_type.to_string(),
        }
    }

    /// The qualified type within any number of collection layers.
    pub fn underlying_type(&self) -> (r: &QualifiedType)
        ensures
            r@ == underlying(self@),
        decreases self,
    {
        match self {
            Type::Collection { elements } => elements.underlying_type(),
            Type::Qualified { qualified_type } => qualified_type,
        }
    }
}

impl TypeData {
    /// The qualified type within any number of collection layers.
    pub fn underlying_type(&self) -> (r: &QualifiedType)
        ensures
            r@ == underlying(self.inner@),
    {
        self.inner.underlying_type()
    }
}

} // verus!
