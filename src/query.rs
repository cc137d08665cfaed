//! The query compiler: a structured request becomes an OData resource URL with `$select`,
//! `$expand`, `$filter`, `$orderby`, `$top` and `$skip`. Unsupported request features are
//! rejected, never dropped.

use crate::config::{Configuration, Endpoint};
use crate::error::{Error, Unsupported};
use crate::text::{decimal, decimal_text, join, join_strings, lemma_name_lt_total, name_lt, str_less, views};
use crate::models;
use crate::models::{ComparisonTarget, Expression, OrderDirection, ScalarValue};
use vstd::prelude::*;

verus! {

/// A filter that OData can express.
#[derive(Debug)]
pub enum Filter {
    And { expressions: Vec<Filter> },
    Or { expressions: Vec<Filter> },
    Not { expression: Box<Filter> },
    IsNull { column: String },
    Equals { column: String, comparison_value: ComparisonValue },
}

/// What a column is compared against in a filter.
#[derive(Debug)]
pub enum ComparisonValue {
    Column { column: String },
    Scalar { value: ScalarValue },
}

/// Why a comparison target cannot be used: a path or the root collection.
pub open spec fn target_problem(t: ComparisonTarget) -> Option<Unsupported> {
    match t {
        ComparisonTarget::Column { name, path } => if path@.len() > 0 {
            Some(Unsupported::ColumnPath)
        } else {
            None
        },
        ComparisonTarget::RootCollectionColumn { .. } => Some(Unsupported::RootCollectionColumn),
    }
}

/// Why a comparison value cannot be used.
pub open spec fn value_problem(v: models::ComparisonValue) -> Option<Unsupported> {
    match v {
        models::ComparisonValue::Column { column } => target_problem(column),
        models::ComparisonValue::Scalar { .. } => None,
        models::ComparisonValue::Variable { .. } => Some(Unsupported::Variable),
    }
}

/// The first unsupported construct of a predicate, if any.
pub open spec fn expression_problem(e: Expression) -> Option<Unsupported>
    decreases e,
{
    match e {
        Expression::And { expressions } => expressions_problem(expressions@),
        Expression::Or { expressions } => expressions_problem(expressions@),
        Expression::Not { expression } => expression_problem(*expression),
        Expression::UnaryComparisonOperator { column } => target_problem(column),
        Expression::BinaryComparisonOperator { column, operator, value } => match operator {
            models::BinaryComparisonOperator::Equal => match value_problem(value) {
                Some(p) => Some(p),
                None => target_problem(column),
            },
            models::BinaryComparisonOperator::Other { .. } => Some(
                Unsupported::NonEqualityComparison,
            ),
        },
        Expression::BinaryArrayComparisonOperator { .. } => Some(Unsupported::ArrayComparison),
        Expression::Exists => Some(Unsupported::Existential),
    }
}

/// The first unsupported construct of a list of predicates, in order.
pub open spec fn expressions_problem(es: Seq<Expression>) -> Option<Unsupported>
    decreases es,
{
    if es.len() == 0 {
        None
    } else {
        match expressions_problem(es.drop_last()) {
            Some(p) => Some(p),
            None => expression_problem(es.last()),
        }
    }
}

/// `t` is a plain column named `c`.
pub open spec fn converts_target(t: ComparisonTarget, c: Seq<char>) -> bool {
    t matches ComparisonTarget::Column { name, path } && path@.len() == 0 && name@ == c
}

/// `v` is the comparison value `w`.
pub open spec fn converts_value(v: models::ComparisonValue, w: ComparisonValue) -> bool {
    match (v, w) {
        (models::ComparisonValue::Column { column }, ComparisonValue::Column { column: c }) => converts_target(column, c@),
        (models::ComparisonValue::Scalar { value }, ComparisonValue::Scalar { value: x }) => match (value, x) {
            (ScalarValue::Text { value: a }, ScalarValue::Text { value: b }) => a@ == b@,
            (ScalarValue::Other { text: a }, ScalarValue::Other { text: b }) => a@ == b@,
            _ => false,
        },
        _ => false,
    }
}

/// `f` is the filter for the predicate `e`.
pub open spec fn converts_filter(e: Expression, f: Filter) -> bool
    decreases e,
{
    match e {
        Expression::And { expressions } => f matches Filter::And { expressions: fs }
            && converts_filters(expressions@, fs@),
        Expression::Or { expressions } => f matches Filter::Or { expressions: fs }
            && converts_filters(expressions@, fs@),
        Expression::Not { expression } => f matches Filter::Not { expression: g }
            && converts_filter(*expression, *g),
        Expression::UnaryComparisonOperator { column } => f matches Filter::IsNull { column: c }
            && converts_target(column, c@),
        Expression::BinaryComparisonOperator { column, operator, value } => f matches Filter::Equals {
            column: c,
            comparison_value: v,
        } && operator is Equal && converts_target(column, c@) && converts_value(value, v),
        _ => false,
    }
}

/// `fs` are the filters for the predicates `es`, one for one.
pub open spec fn converts_filters(es: Seq<Expression>, fs: Seq<Filter>) -> bool
    decreases es,
{
    es.len() == fs.len() && (es.len() == 0 || (converts_filters(es.drop_last(), fs.drop_last())
        && converts_filter(es.last(), fs.last())))
}

fn convert_target(t: &ComparisonTarget) -> (r: Result<String, Error>)
    ensures
        match r {
            Ok(c) => target_problem(*t) is None && converts_target(*t, c@),
            Err(e) => target_problem(*t) matches Some(p) && e == Error::QueryShape(p),
        },
{
    match t {
        ComparisonTarget::Column { name, path } => {
            if path.len() > 0 {
                Err(Error::QueryShape(Unsupported::ColumnPath))
            } else {
                Ok(name.clone())
            }
        },
        ComparisonTarget::RootCollectionColumn { .. } => Err(
            Error::QueryShape(Unsupported::RootCollectionColumn),
        ),
    }
}

fn copy_scalar(v: &ScalarValue) -> (r: ScalarValue)
    ensures
        r == *v,
{
    match v {
        ScalarValue::Text { value } => ScalarValue::Text { value: value.clone() },
        ScalarValue::Other { text } => ScalarValue::Other { text: text.clone() },
    }
}

fn convert_all(es: &Vec<Expression>) -> (r: Result<Vec<Filter>, Error>)
    ensures
        match r {
            Ok(fs) => expressions_problem(es@) is None && converts_filters(es@, fs@),
            Err(e) => expressions_problem(es@) matches Some(p) && e == Error::QueryShape(p),
        },
    decreases es@,
{
    let mut out: Vec<Filter> = Vec::new();
    let mut i: usize = 0;
    while i < es.len()
        invariant
            i <= es@.len(),
            expressions_problem(es@.subrange(0, i as int)) is None,
            converts_filters(es@.subrange(0, i as int), out@),
        decreases es@.len() - i,
    {
        let ghost pre = es@.subrange(0, i as int + 1);
        assert(pre.drop_last() =~= es@.subrange(0, i as int));
        assert(pre.last() == es@[i as int]);
        match Filter::from_predicate(&es[i]) {
            Ok(f) => {
                let ghost before = out@;
                out.push(f);
                assert(out@.drop_last() =~= before);
            },
            Err(e) => {
                proof {
                    lemma_expressions_problem_prefix(es@, i as int + 1);
                }
                return Err(e);
            },
        }
        i += 1;
    }
    assert(es@.subrange(0, i as int) =~= es@);
    Ok(out)
}

proof fn lemma_expressions_problem_prefix(es: Seq<Expression>, k: int)
    requires
        0 <= k <= es.len(),
        expressions_problem(es.subrange(0, k)) is Some,
    ensures
        expressions_problem(es) == expressions_problem(es.subrange(0, k)),
    decreases es.len() - k,
{
    if k < es.len() {
        assert(es.subrange(0, k + 1).drop_last() =~= es.subrange(0, k));
        lemma_expressions_problem_prefix(es, k + 1);
    } else {
        assert(es.subrange(0, k) =~= es);
    }
}

impl Filter {
    /// The filter of a query, if it has a predicate.
    pub fn from_user_query(query: &models::Query) -> (r: Result<Option<Filter>, Error>)
        ensures
            match query.predicate {
                None => r matches Ok(None),
                Some(e) => match r {
                    Ok(Some(f)) => expression_problem(e) is None && converts_filter(e, f),
                    Ok(None) => false,
                    Err(err) => expression_problem(e) matches Some(p) && err == Error::QueryShape(p),
                },
            },
    {
        match &query.predicate {
            Some(predicate) => Ok(Some(Filter::from_predicate(predicate)?)),
            None => Ok(None),
        }
    }

    /// Converts a predicate into a filter, or names the first construct that OData filters
    /// cannot express.
    pub fn from_predicate(expression: &Expression) -> (r: Result<Filter, Error>)
        ensures
            match r {
                Ok(f) => expression_problem(*expression) is None && converts_filter(*expression, f),
                Err(e) => expression_problem(*expression) matches Some(p) && e == Error::QueryShape(p),
            },
        decreases expression,
    {
        match expression {
            Expression::And { expressions } => {
                let fs = convert_all(expressions)?;
                Ok(Filter::And { expressions: fs })
            },
            Expression::Or { expressions } => {
                let fs = convert_all(expressions)?;
                Ok(Filter::Or { expressions: fs })
            },
            Expression::Not { expression } => {
                let f = Filter::from_predicate(expression)?;
                Ok(Filter::Not { expression: Box::new(f) })
            },
            Expression::UnaryComparisonOperator { column } => {
                let c = convert_target(column)?;
                Ok(Filter::IsNull { column: c })
            },
            Expression::BinaryComparisonOperator { column, operator, value } => {
                if let models::BinaryComparisonOperator::Other { .. } = operator {
                    return Err(Error::QueryShape(Unsupported::NonEqualityComparison));
                }
                let comparison_value = match value {
                    models::ComparisonValue::Column { column } => ComparisonValue::Column {
                        column: convert_target(column)?,
                    },
                    models::ComparisonValue::Scalar { value } => ComparisonValue::Scalar {
                        value: copy_scalar(value),
                    },
                    models::ComparisonValue::Variable { .. } => {
                        return Err(Error::QueryShape(Unsupported::Variable));
                    },
                };
                let c = convert_target(column)?;
                Ok(Filter::Equals { column: c, comparison_value })
            },
            Expression::BinaryArrayComparisonOperator { .. } => Err(
                Error::QueryShape(Unsupported::ArrayComparison),
            ),
            Expression::Exists => Err(Error::QueryShape(Unsupported::Existential)),
        }
    }
}


/// An ordering by columns of the collection itself.
#[derive(Debug)]
pub struct OrderBy(pub Vec<OrderByElement>);

/// One ordering key: a column and a direction.
#[derive(Debug)]
pub struct OrderByElement {
    pub order_direction: OrderDirection,
    pub target: String,
}

/// The name of a column as the query engine knows it in the result.
#[derive(Debug)]
pub struct Alias(pub String);

/// The name of a property as OData knows it.
#[derive(Debug)]
pub struct Original(pub String);

/// The fields of a query: columns of the collection and expanded relationships.
#[derive(Debug)]
pub struct Fields {
    pub columns: Vec<(Alias, Original)>,
    pub relationships: Vec<(Alias, Relationship)>,
}

/// An expanded relationship, with the query to run on the related collection.
#[derive(Debug)]
pub struct Relationship {
    pub query: Query,
    pub relationship: String,
}

/// A query in the shape that OData can express.
#[derive(Debug)]
pub struct Query {
    pub fields: Fields,
    pub filter: Option<Filter>,
    pub order_by: Option<OrderBy>,
    pub limit: Option<u32>,
    pub offset: Option<u32>,
}

/// The target is a column of the collection itself.
pub open spec fn plain_column(t: models::OrderByTarget) -> bool {
    t matches models::OrderByTarget::Column { name, path } && path@.len() == 0
}

/// The column name of a column target.
pub open spec fn target_name(t: models::OrderByTarget) -> Seq<char> {
    match t {
        models::OrderByTarget::Column { name, .. } => name@,
        models::OrderByTarget::Aggregate => Seq::empty(),
    }
}

/// Whether every ordering key is a plain column of the collection.
pub open spec fn order_problem(es: Seq<models::OrderByElement>) -> Option<Unsupported> {
    if forall|i: int|
        0 <= i < es.len() ==> plain_column((#[trigger] es[i]).target) {
        None
    } else {
        Some(Unsupported::OrderByTarget)
    }
}

/// `o` is the ordering for the ordering keys `es`.
pub open spec fn converts_order(es: Seq<models::OrderByElement>, o: Seq<OrderByElement>) -> bool {
    &&& es.len() == o.len()
    &&& forall|i: int|
        0 <= i < es.len() ==> target_name((#[trigger] es[i]).target) == o[i].target@
            && es[i].order_direction == o[i].order_direction
}

impl OrderBy {
    /// The ordering of a query; an ordering by anything but a column of the collection itself
    /// is refused.
    pub fn from_user_query(query: &models::Query) -> (r: Result<Option<OrderBy>, Error>)
        ensures
            match query.order_by {
                None => r matches Ok(None),
                Some(o) => match r {
                    Ok(Some(OrderBy(es))) => order_problem(o.elements@) is None && converts_order(
                        o.elements@,
                        es@,
                    ),
                    Ok(None) => false,
                    Err(e) => order_problem(o.elements@) matches Some(p) && e == Error::QueryShape(p),
                },
            },
    {
        let order_by = match &query.order_by {
            Some(o) => o,
            None => {
                return Ok(None);
            },
        };
        let elements = &order_by.elements;
        let mut out: Vec<OrderByElement> = Vec::new();
        let mut i: usize = 0;
        while i < elements.len()
            invariant
                i <= elements@.len(),
                query.order_by matches Some(o) && o.elements@ == elements@,
                out@.len() == i,
                forall|j: int|
                    0 <= j < i ==> plain_column((#[trigger] elements@[j]).target) && target_name(
                        elements@[j].target,
                    ) == out@[j].target@ && elements@[j].order_direction == out@[j].order_direction,
            decreases elements@.len() - i,
        {
            let element = &elements[i];
            match &element.target {
                models::OrderByTarget::Column { name, path } => {
                    if path.len() > 0 {
                        return Err(Error::QueryShape(Unsupported::OrderByTarget));
                    }
                    out.push(
                        OrderByElement {
                            order_direction: element.order_direction,
                            target: name.clone(),
                        },
                    );
                },
                models::OrderByTarget::Aggregate => {
                    return Err(Error::QueryShape(Unsupported::OrderByTarget));
                },
            }
            i += 1;
        }
        Ok(Some(OrderBy(out)))
    }
}


/// Where a field with alias `n` goes in `order`: after every field whose alias comes before `n`.
pub open spec fn alias_position(fs: Seq<(String, models::Field)>, order: Seq<usize>, n: Seq<char>) -> int
    decreases order.len(),
{
    if order.len() == 0 {
        0
    } else if name_lt(fs[order[0] as int].0@, n) {
        1 + alias_position(fs, order.drop_first(), n)
    } else {
        0
    }
}

/// The field at index `i` put into `order`: in place of the field with the same alias if there
/// is one, else at its position by alias.
pub open spec fn insert_alias(fs: Seq<(String, models::Field)>, order: Seq<usize>, i: usize) -> Seq<usize> {
    if exists|j: int| 0 <= j < order.len() && fs[(#[trigger] order[j]) as int].0@ == fs[i as int].0@ {
        order.update(
            choose|j: int| 0 <= j < order.len() && fs[(#[trigger] order[j]) as int].0@ == fs[i as int].0@,
            i,
        )
    } else {
        order.insert(alias_position(fs, order, fs[i as int].0@), i)
    }
}

/// The indices of the first `k` fields in alias order, one per alias; of two fields with one
/// alias, the later is kept.
pub open spec fn alias_order_upto(fs: Seq<(String, models::Field)>, k: int) -> Seq<usize>
    decreases k,
{
    if k <= 0 {
        Seq::empty()
    } else {
        insert_alias(fs, alias_order_upto(fs, k - 1), (k - 1) as usize)
    }
}

/// The fields in alias order, one per alias.
pub open spec fn in_alias_order(fs: Seq<(String, models::Field)>) -> Seq<(String, models::Field)> {
    alias_order_upto(fs, fs.len() as int).map_values(|i: usize| fs[i as int])
}

/// Every index of `order` is below `k`, and their aliases are strictly increasing.
pub open spec fn alias_sorted(fs: Seq<(String, models::Field)>, order: Seq<usize>, k: int) -> bool {
    &&& forall|j: int| 0 <= j < order.len() ==> (#[trigger] order[j]) < k
    &&& forall|j: int|
        0 <= j < order.len() - 1 ==> name_lt(fs[(#[trigger] order[j]) as int].0@, fs[order[j + 1] as int].0@)
    &&& forall|a: int, b: int|
        0 <= a < b < order.len() ==> fs[(#[trigger] order[a]) as int].0@ != fs[(#[trigger] order[b]) as int].0@
}

proof fn lemma_alias_position(fs: Seq<(String, models::Field)>, order: Seq<usize>, n: Seq<char>, p: int)
    requires
        0 <= p <= order.len(),
        forall|j: int| 0 <= j < p ==> name_lt(fs[(#[trigger] order[j]) as int].0@, n),
        p == order.len() || !name_lt(fs[order[p] as int].0@, n),
    ensures
        alias_position(fs, order, n) == p,
    decreases p,
{
    if p > 0 {
        assert(name_lt(fs[order[0] as int].0@, n));
        assert forall|j: int| 0 <= j < p - 1 implies name_lt(fs[(#[trigger] order.drop_first()[j]) as int].0@, n) by {
            assert(order.drop_first()[j] == order[j + 1]);
        }
        lemma_alias_position(fs, order.drop_first(), n, p - 1);
    }
}

proof fn lemma_alias_position_facts(fs: Seq<(String, models::Field)>, order: Seq<usize>, n: Seq<char>)
    ensures
        0 <= alias_position(fs, order, n) <= order.len(),
        forall|j: int| 0 <= j < alias_position(fs, order, n) ==> name_lt(fs[(#[trigger] order[j]) as int].0@, n),
        alias_position(fs, order, n) < order.len() ==> !name_lt(fs[order[alias_position(fs, order, n)] as int].0@, n),
    decreases order.len(),
{
    if order.len() > 0 && name_lt(fs[order[0] as int].0@, n) {
        let p = alias_position(fs, order, n);
        lemma_alias_position_facts(fs, order.drop_first(), n);
        assert forall|j: int| 0 <= j < p implies name_lt(fs[(#[trigger] order[j]) as int].0@, n) by {
            if j > 0 {
                assert(order[j] == order.drop_first()[j - 1]);
            }
        }
        if p < order.len() {
            assert(order[p] == order.drop_first()[p - 1]);
        }
    }
}

proof fn lemma_insert_alias_sorted(fs: Seq<(String, models::Field)>, order: Seq<usize>, i: usize)
    requires
        alias_sorted(fs, order, i as int),
        i < fs.len(),
    ensures
        alias_sorted(fs, insert_alias(fs, order, i), i as int + 1),
{
    let r = insert_alias(fs, order, i);
    let n = fs[i as int].0@;
    if exists|j: int| 0 <= j < order.len() && fs[(#[trigger] order[j]) as int].0@ == n {
        let k = choose|j: int| 0 <= j < order.len() && fs[(#[trigger] order[j]) as int].0@ == n;
        assert forall|j: int| 0 <= j < r.len() implies fs[(#[trigger] r[j]) as int].0@ == fs[order[j] as int].0@ && r[j] < i + 1 by {
            if j == k {
                assert(r[j] == i);
            } else {
                assert(r[j] == order[j]);
            }
        }
        assert forall|j: int| 0 <= j < r.len() - 1 implies name_lt(fs[(#[trigger] r[j]) as int].0@, fs[r[j + 1] as int].0@) by {
            assert(fs[r[j] as int].0@ == fs[order[j] as int].0@);
            assert(fs[r[j + 1] as int].0@ == fs[order[j + 1] as int].0@);
        }
        assert forall|a: int, b: int| 0 <= a < b < r.len() implies fs[(#[trigger] r[a]) as int].0@ != fs[(#[trigger] r[b]) as int].0@ by {
            assert(fs[r[a] as int].0@ == fs[order[a] as int].0@);
            assert(fs[r[b] as int].0@ == fs[order[b] as int].0@);
        }
    } else {
        let p = alias_position(fs, order, n);
        lemma_alias_position_facts(fs, order, n);
        if p < order.len() {
            assert(fs[order[p] as int].0@ != n);
            lemma_name_lt_total(fs[order[p] as int].0@, n);
        }
        assert forall|j: int| 0 <= j < r.len() implies (#[trigger] r[j]) < i + 1 by {
            if j < p {
                assert(r[j] == order[j]);
            } else if j > p {
                assert(r[j] == order[j - 1]);
            }
        }
        assert forall|j: int| 0 <= j < r.len() - 1 implies name_lt(fs[(#[trigger] r[j]) as int].0@, fs[r[j + 1] as int].0@) by {
            if j < p - 1 {
                assert(r[j] == order[j] && r[j + 1] == order[j + 1]);
            } else if j == p - 1 {
                assert(r[j] == order[j] && r[j + 1] == i);
            } else if j == p {
                assert(r[j] == i && r[j + 1] == order[p]);
            } else {
                assert(r[j] == order[j - 1] && r[j + 1] == order[j]);
            }
        }
        assert forall|a: int, b: int| 0 <= a < b < r.len() implies fs[(#[trigger] r[a]) as int].0@ != fs[(#[trigger] r[b]) as int].0@ by {
            if a < p && b < p {
                assert(r[a] == order[a] && r[b] == order[b]);
            } else if a < p && b == p {
                assert(r[a] == order[a] && r[b] == i);
            } else if a < p {
                assert(r[a] == order[a] && r[b] == order[b - 1]);
            } else if a == p {
                assert(r[a] == i && r[b] == order[b - 1]);
            } else {
                assert(r[a] == order[a - 1] && r[b] == order[b - 1]);
            }
        }
    }
}

/// The alias order keeps one field per alias, with aliases strictly increasing.
pub proof fn lemma_alias_order_sorted(fs: Seq<(String, models::Field)>, k: int)
    requires
        0 <= k <= fs.len() <= usize::MAX,
    ensures
        alias_sorted(fs, alias_order_upto(fs, k), k),
    decreases k,
{
    if k > 0 {
        lemma_alias_order_sorted(fs, k - 1);
        lemma_insert_alias_sorted(fs, alias_order_upto(fs, k - 1), (k - 1) as usize);
    }
}

fn alias_order(fields: &Vec<(String, models::Field)>) -> (r: Vec<usize>)
    ensures
        r@ == alias_order_upto(fields@, fields@.len() as int),
        alias_sorted(fields@, r@, fields@.len() as int),
{
    let mut order: Vec<usize> = Vec::new();
    let mut i: usize = 0;
    while i < fields.len()
        invariant
            i <= fields@.len(),
            order@ == alias_order_upto(fields@, i as int),
            alias_sorted(fields@, order@, i as int),
        decreases fields@.len() - i,
    {
        proof {
            lemma_insert_alias_sorted(fields@, order@, i);
        }
        let ghost m = order@;
        let ghost n = fields@[i as int].0@;
        let mut j: usize = 0;
        while j < order.len() && !(fields[order[j]].0 == fields[i].0)
            invariant
                j <= order@.len(),
                order@ == m,
                i < fields@.len(),
                n == fields@[i as int].0@,
                alias_sorted(fields@, m, i as int),
                forall|t: int| 0 <= t < j ==> fields@[(#[trigger] m[t]) as int].0@ != n,
            decreases order@.len() - j,
        {
            j += 1;
        }
        if j < order.len() {
            proof {
                assert(fields@[m[j as int] as int].0@ == n);
                let k = choose|t: int| 0 <= t < m.len() && fields@[(#[trigger] m[t]) as int].0@ == n;
                assert(k == j) by {
                    if k < j {
                        assert(fields@[m[k] as int].0@ != fields@[m[j as int] as int].0@);
                    } else if k > j {
                        assert(fields@[m[j as int] as int].0@ != fields@[m[k] as int].0@);
                    }
                }
            }
            order.set(j, i);
            assert(order@ == insert_alias(fields@, m, i));
        } else {
            let mut p: usize = 0;
            while p < order.len() && str_less(fields[order[p]].0.as_str(), fields[i].0.as_str())
                invariant
                    p <= order@.len(),
                    order@ == m,
                    i < fields@.len(),
                    n == fields@[i as int].0@,
                    alias_sorted(fields@, m, i as int),
                    forall|t: int| 0 <= t < p ==> name_lt(fields@[(#[trigger] m[t]) as int].0@, n),
                decreases order@.len() - p,
            {
                p += 1;
            }
            proof {
                lemma_alias_position(fields@, m, n, p as int);
            }
            order.insert(p, i);
            assert(order@ == insert_alias(fields@, m, i));
        }
        i += 1;
    }
    order
}

/// The first unsupported construct of a query, its nested queries included.
pub open spec fn query_problem(q: models::Query) -> Option<Unsupported>
    decreases q, 0int,
{
    if q.aggregates {
        Some(Unsupported::Aggregates)
    } else {
        match q.fields {
            None => Some(Unsupported::MissingFields),
            Some(fs) => match fields_problem(fs@, alias_order_upto(fs@, fs@.len() as int)) {
                Some(p) => Some(p),
                None => match q.predicate {
                    Some(e) if expression_problem(e) is Some => expression_problem(e),
                    _ => match q.order_by {
                        Some(o) => order_problem(o.elements@),
                        None => None,
                    },
                },
            },
        }
    }
}

/// The first unsupported construct among the nested queries of the fields `fs`, taken in the
/// order of the indices `order`.
pub open spec fn fields_problem(fs: Seq<(String, models::Field)>, order: Seq<usize>) -> Option<
    Unsupported,
>
    decreases fs, order.len(),
{
    if order.len() == 0 {
        None
    } else {
        match fields_problem(fs, order.drop_last()) {
            Some(p) => Some(p),
            None => {
                let i = order.last() as int;
                if 0 <= i < fs.len() {
                    match fs[i].1 {
                        models::Field::Column { .. } => None,
                        models::Field::Relationship { query, .. } => query_problem(*query),
                    }
                } else {
                    None
                }
            },
        }
    }
}

/// `q` is the compiled form of the query `u`: its fields in alias order, one per alias.
pub open spec fn converts_query(u: models::Query, q: Query) -> bool
    decreases u, 0int,
{
    &&& u.fields matches Some(fs) && converts_fields(
        fs@,
        alias_order_upto(fs@, fs@.len() as int),
        q.fields.columns@,
        q.fields.relationships@,
    )
    &&& match (u.predicate, q.filter) {
        (None, None) => true,
        (Some(e), Some(f)) => converts_filter(e, f),
        _ => false,
    }
    &&& match (u.order_by, q.order_by) {
        (None, None) => true,
        (Some(o), Some(OrderBy(es))) => converts_order(o.elements@, es@),
        _ => false,
    }
    &&& q.limit == u.limit
    &&& q.offset == u.offset
}

/// The fields `fs`, taken in the order of the indices `order`, split into the columns `cols` and
/// the relationships `rels`.
pub open spec fn converts_fields(
    fs: Seq<(String, models::Field)>,
    order: Seq<usize>,
    cols: Seq<(Alias, Original)>,
    rels: Seq<(Alias, Relationship)>,
) -> bool
    decreases fs, order.len(),
{
    if order.len() == 0 {
        cols.len() == 0 && rels.len() == 0
    } else {
        let i = order.last() as int;
        if 0 <= i < fs.len() {
            match fs[i].1 {
                models::Field::Column { column } => cols.len() > 0 && cols.last().0.0@ == fs[i].0@
                    && cols.last().1.0@ == column@ && converts_fields(
                    fs,
                    order.drop_last(),
                    cols.drop_last(),
                    rels,
                ),
                models::Field::Relationship { query, relationship } => rels.len() > 0
                    && rels.last().0.0@ == fs[i].0@ && rels.last().1.relationship@ == relationship@
                    && converts_query(*query, rels.last().1.query) && converts_fields(
                    fs,
                    order.drop_last(),
                    cols,
                    rels.drop_last(),
                ),
            }
        } else {
            false
        }
    }
}

proof fn lemma_fields_problem_prefix(fs: Seq<(String, models::Field)>, order: Seq<usize>, k: int)
    requires
        0 <= k <= order.len(),
        fields_problem(fs, order.subrange(0, k)) is Some,
    ensures
        fields_problem(fs, order) == fields_problem(fs, order.subrange(0, k)),
    decreases order.len() - k,
{
    if k < order.len() {
        assert(order.subrange(0, k + 1).drop_last() =~= order.subrange(0, k));
        lemma_fields_problem_prefix(fs, order, k + 1);
    } else {
        assert(order.subrange(0, k) =~= order);
    }
}

impl Fields {
    /// Splits the fields of a query into columns and relationships, in alias order and one per
    /// alias (of two fields with one alias, the later is kept), compiling the nested query of
    /// each relationship.
    pub fn from_user_query(fields: &Vec<(String, models::Field)>) -> (r: Result<Fields, Error>)
        ensures
            match r {
                Ok(f) => fields_problem(fields@, alias_order_upto(fields@, fields@.len() as int))
                    is None && converts_fields(
                    fields@,
                    alias_order_upto(fields@, fields@.len() as int),
                    f.columns@,
                    f.relationships@,
                ),
                Err(e) => fields_problem(fields@, alias_order_upto(fields@, fields@.len() as int))
                    matches Some(p) && e == Error::QueryShape(p),
            },
        decreases fields@,
    {
        let order = alias_order(fields);
        let mut columns: Vec<(Alias, Original)> = Vec::new();
        let mut relationships: Vec<(Alias, Relationship)> = Vec::new();
        let mut k: usize = 0;
        while k < order.len()
            invariant
                k <= order@.len(),
                order@ == alias_order_upto(fields@, fields@.len() as int),
                alias_sorted(fields@, order@, fields@.len() as int),
                fields_problem(fields@, order@.subrange(0, k as int)) is None,
                converts_fields(fields@, order@.subrange(0, k as int), columns@, relationships@),
            decreases order@.len() - k,
        {
            let ghost pre = order@.subrange(0, k as int + 1);
            assert(pre.drop_last() =~= order@.subrange(0, k as int));
            assert(pre.last() == order@[k as int]);
            let i = order[k];
            assert(i < fields@.len());
            let (alias, field) = &fields[i];
            match field {
                models::Field::Column { column } => {
                    let ghost before = columns@;
                    columns.push((Alias(alias.clone()), Original(column.clone())));
                    assert(columns@.drop_last() =~= before);
                },
                models::Field::Relationship { query, relationship } => {
                    assert(decreases_to!(fields@ => fields@[i as int]));
                    match Query::from_user_query(query) {
                        Ok(q) => {
                            let ghost before = relationships@;
                            relationships.push(
                                (
                                    Alias(alias.clone()),
                                    Relationship { query: q, relationship: relationship.clone() },
                                ),
                            );
                            assert(relationships@.drop_last() =~= before);
                        },
                        Err(e) => {
                            proof {
                                lemma_fields_problem_prefix(fields@, order@, k as int + 1);
                            }
                            return Err(e);
                        },
                    }
                },
            }
            k += 1;
        }
        assert(order@.subrange(0, k as int) =~= order@);
        Ok(Fields { columns, relationships })
    }
}

impl Query {
    /// Compiles a query: separates columns (`$select`) from relationships (`$expand`), and
    /// converts the predicate and the ordering. The first unsupported construct is reported.
    pub fn from_user_query(query: &models::Query) -> (r: Result<Query, Error>)
        ensures
            match r {
                Ok(q) => query_problem(*query) is None && converts_query(*query, q),
                Err(e) => query_problem(*query) matches Some(p) && e == Error::QueryShape(p),
            },
        decreases query,
    {
        if query.aggregates {
            return Err(Error::QueryShape(Unsupported::Aggregates));
        }
        let fields = match &query.fields {
            Some(fs) => Fields::from_user_query(fs)?,
            None => {
                return Err(Error::QueryShape(Unsupported::MissingFields));
            },
        };
        let filter = Filter::from_user_query(query)?;
        let order_by = OrderBy::from_user_query(query)?;
        Ok(Query { fields, filter, order_by, limit: query.limit, offset: query.offset })
    }
}


/// `s` with each single quote doubled, as OData string literals write it.
pub open spec fn escape_quotes(s: Seq<char>) -> Seq<char>
    decreases s.len(),
{
    if s.len() == 0 {
        Seq::empty()
    } else if s.last() == '\'' {
        escape_quotes(s.drop_last()) + seq!['\'', '\'']
    } else {
        escape_quotes(s.drop_last()).push(s.last())
    }
}

/// The text of a comparison value: a column name, a quoted string, or another value's text.
pub open spec fn value_text(v: ComparisonValue) -> Seq<char> {
    match v {
        ComparisonValue::Column { column } => column@,
        ComparisonValue::Scalar { value } => match value {
            ScalarValue::Text { value } => seq!['\''] + escape_quotes(value@) + seq!['\''],
            ScalarValue::Other { text } => text@,
        },
    }
}

/// The OData text of a filter.
pub open spec fn filter_text(f: Filter) -> Seq<char>
    decreases f,
{
    match f {
        Filter::And { expressions } => "("@ + join(filter_texts(expressions@), " and "@) + ")"@,
        Filter::Or { expressions } => "("@ + join(filter_texts(expressions@), " or "@) + ")"@,
        Filter::Not { expression } => "(not "@ + filter_text(*expression) + ")"@,
        Filter::IsNull { column } => "("@ + column@ + " eq null)"@,
        Filter::Equals { column, comparison_value } => "("@ + column@ + " eq "@ + value_text(
            comparison_value,
        ) + ")"@,
    }
}

/// The texts of a list of filters.
pub open spec fn filter_texts(fs: Seq<Filter>) -> Seq<Seq<char>>
    decreases fs,
{
    if fs.len() == 0 {
        Seq::empty()
    } else {
        filter_texts(fs.drop_last()).push(filter_text(fs.last()))
    }
}

/// `$select` with the original names of the columns, comma-joined.
pub open spec fn select_param(f: Fields) -> Seq<char> {
    "$select="@ + join(f.columns@.map_values(|c: (Alias, Original)| c.1.0@), ","@)
}

/// The text of one ordering key.
pub open spec fn order_text(e: OrderByElement) -> Seq<char> {
    e.target@ + if e.order_direction == OrderDirection::Asc {
        " asc"@
    } else {
        " desc"@
    }
}

/// The parameters of a query, each `name=value`, in the order `$select`, `$expand`, `$filter`,
/// `$orderby`, `$top`, `$skip`; `$select` always, the others only when present.
pub open spec fn query_params(q: Query) -> Seq<Seq<char>>
    decreases q,
{
    seq![select_param(q.fields)] + (if q.fields.relationships@.len() > 0 {
        seq!["$expand="@ + join(expansion_texts(q.fields.relationships@), ","@)]
    } else {
        Seq::empty()
    }) + match q.filter {
        Some(f) => seq!["$filter="@ + filter_text(f)],
        None => Seq::empty(),
    } + match q.order_by {
        Some(OrderBy(es)) => seq![
            "$orderby="@ + join(es@.map_values(|e: OrderByElement| order_text(e)), ","@),
        ],
        None => Seq::empty(),
    } + match q.limit {
        Some(n) => seq!["$top="@ + decimal(n as nat)],
        None => Seq::empty(),
    } + match q.offset {
        Some(n) => seq!["$skip="@ + decimal(n as nat)],
        None => Seq::empty(),
    }
}

/// Each relationship as `name(...)`, its query's parameters joined by `;` inside.
pub open spec fn expansion_texts(rels: Seq<(Alias, Relationship)>) -> Seq<Seq<char>>
    decreases rels,
{
    if rels.len() == 0 {
        Seq::empty()
    } else {
        let r = rels.last().1;
        expansion_texts(rels.drop_last()).push(
            r.relationship@ + "("@ + join(query_params(r.query), ";"@) + ")"@,
        )
    }
}

/// The text of one expanded relationship: its name, then its own query's parameters joined by
/// `;` in parentheses.
pub open spec fn expansion_text(r: Relationship) -> Seq<char> {
    r.relationship@ + "("@ + join(query_params(r.query), ";"@) + ")"@
}

proof fn lemma_expansion_texts_index(rels: Seq<(Alias, Relationship)>)
    ensures
        expansion_texts(rels).len() == rels.len(),
        forall|i: int|
            0 <= i < rels.len() ==> #[trigger] expansion_texts(rels)[i] == expansion_text(rels[i].1),
    decreases rels.len(),
{
    if rels.len() > 0 {
        lemma_expansion_texts_index(rels.drop_last());
        assert forall|i: int| 0 <= i < rels.len() implies #[trigger] expansion_texts(rels)[i]
            == expansion_text(rels[i].1) by {
            if i < rels.len() - 1 {
                assert(rels.drop_last()[i] == rels[i]);
            }
        }
    }
}

/// A query with relationships has, right after `$select`, one `$expand` parameter: the
/// relationships comma-joined, each written `name(...)` with its own query's parameters
/// `;`-joined inside.
pub proof fn lemma_expand_parameter(q: Query)
    requires
        q.fields.relationships@.len() > 0,
    ensures
        query_params(q)[0] == select_param(q.fields),
        query_params(q)[1] == "$expand="@ + join(expansion_texts(q.fields.relationships@), ","@),
        expansion_texts(q.fields.relationships@).len() == q.fields.relationships@.len(),
        forall|i: int|
            0 <= i < q.fields.relationships@.len() ==> #[trigger] expansion_texts(
                q.fields.relationships@,
            )[i] == expansion_text(q.fields.relationships@[i].1),
{
    lemma_expansion_texts_index(q.fields.relationships@);
}

fn escape(s: &str) -> (r: String)
    ensures
        r@ == escape_quotes(s@),
{
    let n = s.unicode_len();
    let mut out = String::new();
    let mut i: usize = 0;
    while i < n
        invariant
            i <= n == s@.len(),
            out@ == escape_quotes(s@.subrange(0, i as int)),
        decreases n - i,
    {
        let ghost pre = s@.subrange(0, i as int + 1);
        assert(pre.drop_last() =~= s@.subrange(0, i as int));
        if s.get_char(i) == '\'' {
            proof {
                reveal_strlit("''");
            }
            out.append("''");
            assert("''"@ =~= seq!['\'', '\'']);
        } else {
            let c = s.substring_char(i, i + 1);
            out.append(c);
            assert(out@ =~= escape_quotes(pre));
        }
        i += 1;
    }
    assert(s@.subrange(0, i as int) =~= s@);
    out
}

impl Filter {
    /// The OData `$filter` text of the filter.
    pub fn to_odata_filter(&self) -> (r: String)
        ensures
            r@ == filter_text(*self),
        decreases self,
    {
        match self {
            Filter::And { expressions } => {
                let parts = filter_parts(expressions);
                let mut r = String::from_str("(");
                r.append(join_strings(&parts, " and ").as_str());
                r.append(")");
                r
            },
            Filter::Or { expressions } => {
                let parts = filter_parts(expressions);
                let mut r = String::from_str("(");
                r.append(join_strings(&parts, " or ").as_str());
                r.append(")");
                r
            },
            Filter::Not { expression } => {
                let mut r = String::from_str("(not ");
                r.append(expression.to_odata_filter().as_str());
                r.append(")");
                r
            },
            Filter::IsNull { column } => {
                let mut r = String::from_str("(");
                r.append(column.as_str());
                r.append(" eq null)");
                r
            },
            Filter::Equals { column, comparison_value } => {
                let mut r = String::from_str("(");
                r.append(column.as_str());
                r.append(" eq ");
                match comparison_value {
                    ComparisonValue::Column { column } => r.append(column.as_str()),
                    ComparisonValue::Scalar { value } => match value {
                        ScalarValue::Text { value } => {
                            proof {
                                reveal_strlit("'");
                            }
                            r.append("'");
                            r.append(escape(value.as_str()).as_str());
                            r.append("'");
                        },
                        ScalarValue::Other { text } => r.append(text.as_str()),
                    },
                }
                r.append(")");
                r
            },
        }
    }
}

fn filter_parts(fs: &Vec<Filter>) -> (r: Vec<String>)
    ensures
        views(r@) == filter_texts(fs@),
    decreases fs@,
{
    let mut out: Vec<String> = Vec::new();
    let mut i: usize = 0;
    while i < fs.len()
        invariant
            i <= fs@.len(),
            views(out@) == filter_texts(fs@.subrange(0, i as int)),
        decreases fs@.len() - i,
    {
        let ghost pre = fs@.subrange(0, i as int + 1);
        assert(pre.drop_last() =~= fs@.subrange(0, i as int));
        assert(decreases_to!(fs@ => fs@[i as int]));
        let t = fs[i].to_odata_filter();
        let ghost before = out@;
        out.push(t);
        assert(views(out@) =~= views(before).push(out@.last()@));
        i += 1;
    }
    assert(fs@.subrange(0, i as int) =~= fs@);
    out
}


/// `$select` with the original names of the columns, comma-joined.
fn select_parameter(fields: &Fields) -> (r: String)
    ensures
        r@ == select_param(*fields),
{
    let mut names: Vec<String> = Vec::new();
    let mut i: usize = 0;
    while i < fields.columns.len()
        invariant
            i <= fields.columns@.len(),
            views(names@) == fields.columns@.subrange(0, i as int).map_values(
                |c: (Alias, Original)| c.1.0@,
            ),
        decreases fields.columns@.len() - i,
    {
        let ghost before = names@;
        names.push(fields.columns[i].1.0.clone());
        assert(views(names@) =~= views(before).push(fields.columns@[i as int].1.0@));
        assert(fields.columns@.subrange(0, i as int + 1).map_values(
            |c: (Alias, Original)| c.1.0@,
        ) =~= fields.columns@.subrange(0, i as int).map_values(
            |c: (Alias, Original)| c.1.0@,
        ).push(fields.columns@[i as int].1.0@));
        assert(views(names@) =~= fields.columns@.subrange(0, i as int + 1).map_values(
            |c: (Alias, Original)| c.1.0@,
        ));
        i += 1;
    }
    assert(fields.columns@.subrange(0, i as int) =~= fields.columns@);
    let mut r = String::from_str("$select=");
    r.append(join_strings(&names, ",").as_str());
    r
}

fn order_param(es: &Vec<OrderByElement>) -> (r: String)
    ensures
        r@ == "$orderby="@ + join(es@.map_values(|e: OrderByElement| order_text(e)), ","@),
{
    let mut parts: Vec<String> = Vec::new();
    let mut i: usize = 0;
    while i < es.len()
        invariant
            i <= es@.len(),
            views(parts@) == es@.subrange(0, i as int).map_values(
                |e: OrderByElement| order_text(e),
            ),
        decreases es@.len() - i,
    {
        let mut t = es[i].target.clone();
        match es[i].order_direction {
            OrderDirection::Asc => t.append(" asc"),
            OrderDirection::Desc => t.append(" desc"),
        }
        let ghost before = parts@;
        parts.push(t);
        assert(views(parts@) =~= views(before).push(order_text(es@[i as int])));
        assert(es@.subrange(0, i as int + 1).map_values(
            |e: OrderByElement| order_text(e),
        ) =~= es@.subrange(0, i as int).map_values(
            |e: OrderByElement| order_text(e),
        ).push(order_text(es@[i as int])));
        assert(views(parts@) =~= es@.subrange(0, i as int + 1).map_values(
            |e: OrderByElement| order_text(e),
        ));
        i += 1;
    }
    assert(es@.subrange(0, i as int) =~= es@);
    let mut r = String::from_str("$orderby=");
    r.append(join_strings(&parts, ",").as_str());
    r
}

/// The text of a nested query inside an expansion: all its parameters, `$expand` included,
/// joined by `;`.
pub fn produce_subquery(query: &Query) -> (r: String)
    ensures
        r@ == join(query_params(*query), ";"@),
    decreases query, 1int,
{
    let params = query.prepare_parameters();
    join_strings(&params, ";")
}

fn expansion_parts(rels: &Vec<(Alias, Relationship)>) -> (r: Vec<String>)
    ensures
        views(r@) == expansion_texts(rels@),
    decreases rels@, 0int,
{
    let mut out: Vec<String> = Vec::new();
    let mut i: usize = 0;
    while i < rels.len()
        invariant
            i <= rels@.len(),
            views(out@) == expansion_texts(rels@.subrange(0, i as int)),
        decreases rels@.len() - i,
    {
        let ghost pre = rels@.subrange(0, i as int + 1);
        assert(pre.drop_last() =~= rels@.subrange(0, i as int));
        assert(decreases_to!(rels@ => rels@[i as int].1.query));
        let r = &rels[i].1;
        let nested = produce_subquery(&r.query);
        let mut t = r.relationship.clone();
        t.append("(");
        t.append(nested.as_str());
        t.append(")");
        let ghost before = out@;
        out.push(t);
        assert(views(out@) =~= views(before).push(out@.last()@));
        i += 1;
    }
    assert(rels@.subrange(0, i as int) =~= rels@);
    out
}

impl Query {
    /// The original names of the columns, in order.
    pub fn odata_fields(&self) -> (r: Vec<&String>)
        ensures
            r@.map_values(|s: &String| s@) == self.fields.columns@.map_values(
                |c: (Alias, Original)| c.1.0@,
            ),
    {
        let mut out: Vec<&String> = Vec::new();
        let mut i: usize = 0;
        while i < self.fields.columns.len()
            invariant
                i <= self.fields.columns@.len(),
                out@.map_values(|s: &String| s@) == self.fields.columns@.subrange(
                    0,
                    i as int,
                ).map_values(|c: (Alias, Original)| c.1.0@),
            decreases self.fields.columns@.len() - i,
        {
            let ghost before = out@;
            out.push(&self.fields.columns[i].1.0);
            assert(out@.map_values(|s: &String| s@) =~= before.map_values(|s: &String| s@).push(
                self.fields.columns@[i as int].1.0@,
            ));
            assert(self.fields.columns@.subrange(0, i as int + 1).map_values(
                |c: (Alias, Original)| c.1.0@,
            ) =~= self.fields.columns@.subrange(0, i as int).map_values(
                |c: (Alias, Original)| c.1.0@,
            ).push(self.fields.columns@[i as int].1.0@));
            assert(out@.map_values(|s: &String| s@) =~= self.fields.columns@.subrange(
                0,
                i as int + 1,
            ).map_values(|c: (Alias, Original)| c.1.0@));
            i += 1;
        }
        assert(self.fields.columns@.subrange(0, i as int) =~= self.fields.columns@);
        out
    }

    /// The query's parameters, each `name=value`: `$select` always, then `$expand`, `$filter`,
    /// `$orderby`, `$top` and `$skip` when present.
    pub fn prepare_parameters(&self) -> (r: Vec<String>)
        ensures
            views(r@) == query_params(*self),
        decreases self, 0int,
    {
        let mut params: Vec<String> = Vec::new();
        params.push(select_parameter(&self.fields));
        let ghost mut expected: Seq<Seq<char>> = seq![select_param(self.fields)];
        assert(views(params@) =~= expected);
        if self.fields.relationships.len() > 0 {
            let parts = expansion_parts(&self.fields.relationships);
            let mut t = String::from_str("$expand=");
            t.append(join_strings(&parts, ",").as_str());
            params.push(t);
            proof {
                expected = expected.push("$expand="@ + join(expansion_texts(self.fields.relationships@), ","@));
            }
            assert(views(params@) =~= expected);
        }
        let ghost e1 = expected;
        if let Some(f) = &self.filter {
            let mut t = String::from_str("$filter=");
            t.append(f.to_odata_filter().as_str());
            params.push(t);
            proof {
                expected = expected.push("$filter="@ + filter_text(*f));
            }
            assert(views(params@) =~= expected);
        }
        let ghost e2 = expected;
        if let Some(OrderBy(es)) = &self.order_by {
            params.push(order_param(es));
            proof {
                expected = expected.push("$orderby="@ + join(es@.map_values(|e: OrderByElement| order_text(e)), ","@));
            }
            assert(views(params@) =~= expected);
        }
        let ghost e3 = expected;
        if let Some(n) = self.limit {
            let mut t = String::from_str("$top=");
            t.append(decimal_text(n).as_str());
            params.push(t);
            proof {
                expected = expected.push("$top="@ + decimal(n as nat));
            }
            assert(views(params@) =~= expected);
        }
        let ghost e4 = expected;
        if let Some(n) = self.offset {
            let mut t = String::from_str("$skip=");
            t.append(decimal_text(n).as_str());
            params.push(t);
            proof {
                expected = expected.push("$skip="@ + decimal(n as nat));
            }
            assert(views(params@) =~= expected);
        }
        assert(expected =~= query_params(*self));
        params
    }
}

/// The path of the endpoint without one trailing `/`.
pub open spec fn trimmed_path(p: Seq<char>) -> Seq<char> {
    if p.len() > 0 && p.last() == '/' {
        p.drop_last()
    } else {
        p
    }
}

/// The URL of a query: `protocol://authority/path/collection?` and the parameters `&`-joined.
pub open spec fn url_text(e: Endpoint, collection: Seq<char>, q: Query) -> Seq<char> {
    e.protocol@ + "://"@ + e.authority@ + trimmed_path(e.path@) + "/"@ + collection + "?"@ + join(
        query_params(q),
        "&"@,
    )
}

/// A compiled request against one collection of the API.
#[derive(Debug)]
pub struct Request {
    pub api_endpoint: Endpoint,
    pub collection: String,
    pub query: Query,
}

fn path_without_slash(p: &str) -> (r: &str)
    ensures
        r@ == trimmed_path(p@),
{
    let n = p.unicode_len();
    if n > 0 && p.get_char(n - 1) == '/' {
        p.substring_char(0, n - 1)
    } else {
        p
    }
}

impl Request {
    /// Compiles a request against the configured endpoint.
    pub fn from_user_request(configuration: &Configuration, request: &models::QueryRequest) -> (r: Result<Request, Error>)
        ensures
            match r {
                Ok(q) => query_problem(request.query) is None && q.api_endpoint == configuration.api_endpoint
                    && q.collection@ == request.collection@ && converts_query(request.query, q.query),
                Err(e) => query_problem(request.query) matches Some(p) && e == Error::QueryShape(p),
            },
    {
        let query = Query::from_user_query(&request.query)?;
        Ok(
            Request {
                api_endpoint: configuration.api_endpoint.clone(),
                collection: request.collection.clone(),
                query,
            },
        )
    }

    /// The OData resource URL of the request.
    pub fn to_url(&self) -> (r: String)
        ensures
            r@ == url_text(self.api_endpoint, self.collection@, self.query),
    {
        let mut r = self.api_endpoint.protocol.clone();
        r.append("://");
        r.append(self.api_endpoint.authority.as_str());
        r.append(path_without_slash(self.api_endpoint.path.as_str()));
        r.append("/");
        r.append(self.collection.as_str());
        r.append("?");
        let params = self.query.prepare_parameters();
        r.append(join_strings(&params, "&").as_str());
        r
    }
}


/// The predicate compares with an operator other than equality somewhere.
pub open spec fn has_non_equality(e: Expression) -> bool
    decreases e,
{
    match e {
        Expression::And { expressions } => any_non_equality(expressions@),
        Expression::Or { expressions } => any_non_equality(expressions@),
        Expression::Not { expression } => has_non_equality(*expression),
        Expression::BinaryComparisonOperator { operator, .. } => operator is Other,
        _ => false,
    }
}

/// Some predicate of the list compares with an operator other than equality.
pub open spec fn any_non_equality(es: Seq<Expression>) -> bool
    decreases es,
{
    es.len() > 0 && (any_non_equality(es.drop_last()) || has_non_equality(es.last()))
}

proof fn lemma_non_equality_problem(e: Expression)
    requires
        has_non_equality(e),
    ensures
        expression_problem(e) is Some,
    decreases e,
{
    match e {
        Expression::And { expressions } => lemma_non_equality_problems(expressions@),
        Expression::Or { expressions } => lemma_non_equality_problems(expressions@),
        Expression::Not { expression } => lemma_non_equality_problem(*expression),
        _ => {},
    }
}

proof fn lemma_non_equality_problems(es: Seq<Expression>)
    requires
        any_non_equality(es),
    ensures
        expressions_problem(es) is Some,
    decreases es,
{
    if any_non_equality(es.drop_last()) {
        lemma_non_equality_problems(es.drop_last());
    } else {
        lemma_non_equality_problem(es.last());
    }
}

/// A query whose predicate holds a non-equality comparison anywhere is refused with a query-shape
/// error, so no URL is produced for it.
pub proof fn lemma_non_equality_rejected(q: models::Query)
    requires
        q.predicate matches Some(e) && has_non_equality(e),
    ensures
        query_problem(q) is Some,
{
    let e = q.predicate->0;
    lemma_non_equality_problem(e);
}

} // verus!
