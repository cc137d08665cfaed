//! The errors of the library.

use vstd::prelude::*;

verus! {

/// A request feature that the query compiler rejects rather than approximates.
#[derive(Debug, PartialEq, Eq, Structural, Clone, Copy)]
pub enum Unsupported {
    /// A comparison other than equality.
    NonEqualityComparison,
    /// A column reached through a relationship path.
    ColumnPath,
    /// A reference to a column of the root collection.
    RootCollectionColumn,
    /// A comparison against an array of values (`IN`).
    ArrayComparison,
    /// An existential predicate over a related collection.
    Existential,
    /// A comparison against a query variable.
    Variable,
    /// An aggregate query.
    Aggregates,
    /// An ordering by anything but a column of the collection itself.
    OrderByTarget,
    /// A query without a field selection.
    MissingFields,
}

/// Why a document, a type name or a request could not be translated.
#[derive(Debug)]
pub enum Error {
    /// The metadata document is malformed or of an unsupported version.
    Document(String),
    /// A base type, navigation target, entity-set type or key cannot be found.
    Reference(String),
    /// A type name does not follow the type grammar; holds the offending text.
    TypeGrammar(String),
    /// The request uses a feature that is not supported.
    QueryShape(Unsupported),
}

} // verus!
