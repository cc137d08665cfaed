//! The structured query request that the query engine hands to the connector, holding what the
//! compiler reads of it.

use vstd::prelude::*;

verus! {

/// A query against one collection.
#[derive(Debug)]
pub struct QueryRequest {
    pub collection: String,
    pub query: Query,
}

/// A query: fields to return, a predicate, an ordering and pagination.
#[derive(Debug)]
pub struct Query {
    /// Whether the query asks for aggregates.
    pub aggregates: bool,
    /// The fields to return, by alias.
    pub fields: Option<Vec<(String, Field)>>,
    pub limit: Option<u32>,
    pub offset: Option<u32>,
    pub order_by: Option<OrderBy>,
    pub predicate: Option<Expression>,
}

/// A field of the result: a column, or a related collection with its own query.
#[derive(Debug)]
pub enum Field {
    Column { column: String },
    Relationship { query: Box<Query>, relationship: String },
}

/// An ordering of the result.
#[derive(Debug)]
pub struct OrderBy {
    pub elements: Vec<OrderByElement>,
}

/// One key of an ordering.
#[derive(Debug)]
pub struct OrderByElement {
    pub order_direction: OrderDirection,
    pub target: OrderByTarget,
}

/// The direction of an ordering key.
#[derive(Debug, Clone, Copy, PartialEq, Eq, Structural)]
pub enum OrderDirection {
    Asc,
    Desc,
}

/// What an ordering key orders by.
#[derive(Debug)]
pub enum OrderByTarget {
    /// A column, reached through the relationships of `path`.
    Column { name: String, path: Vec<String> },
    /// An aggregate over a related collection.
    Aggregate,
}

/// A predicate over the rows of a collection.
#[derive(Debug)]
pub enum Expression {
    And { expressions: Vec<Expression> },
    Or { expressions: Vec<Expression> },
    Not { expression: Box<Expression> },
    /// The column is null.
    UnaryComparisonOperator { column: ComparisonTarget },
    BinaryComparisonOperator {
        column: ComparisonTarget,
        operator: BinaryComparisonOperator,
        value: ComparisonValue,
    },
    /// A comparison against an array of values.
    BinaryArrayComparisonOperator { column: ComparisonTarget },
    /// A predicate over a related collection.
    Exists,
}

/// A column that a predicate compares.
#[derive(Debug)]
pub enum ComparisonTarget {
    /// A column, reached through the relationships of `path`.
    Column { name: String, path: Vec<String> },
    /// A column of the root collection of the query.
    RootCollectionColumn { name: String },
}

/// A comparison operator.
#[derive(Debug)]
pub enum BinaryComparisonOperator {
    Equal,
    Other { name: String },
}

/// What a column is compared against.
#[derive(Debug)]
pub enum ComparisonValue {
    Column { column: ComparisonTarget },
    Scalar { value: ScalarValue },
    Variable { name: String },
}

/// A scalar value: a JSON string, or any other JSON value in its textual form.
#[derive(Debug)]
pub enum ScalarValue {
    Text { value: String },
    Other { text: String },
}

} // verus!
