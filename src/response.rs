//! The response interpreter: an OData result row, keyed by OData names, becomes the row that
//! the requester asked for, keyed by aliases and nested along expanded relationships.

use crate::lookup::{find_first, lemma_find_first_at, lemma_find_first_none};
use crate::query::{Alias, Fields, Original, Query, Relationship};
use vstd::prelude::*;

verus! {

/// A JSON value.
#[derive(Debug)]
pub enum Value {
    Null,
    Bool(bool),
    /// A number, in its textual form.
    Number(String),
    Text(String),
    Array(Vec<Value>),
    /// The members of an object, in order.
    Object(Vec<(String, Value)>),
}

/// The model of a JSON value.
pub enum Json {
    Null,
    Bool(bool),
    Number(Seq<char>),
    Text(Seq<char>),
    Array(Seq<Json>),
    Object(Seq<(Seq<char>, Json)>),
}

/// The model of a JSON value.
pub open spec fn json_view(v: Value) -> Json
    decreases v,
{
    match v {
        Value::Null => Json::Null,
        Value::Bool(b) => Json::Bool(b),
        Value::Number(n) => Json::Number(n@),
        Value::Text(t) => Json::Text(t@),
        Value::Array(vs) => Json::Array(json_views(vs@)),
        Value::Object(es) => Json::Object(entry_views(es@)),
    }
}

/// The models of a list of JSON values.
pub open spec fn json_views(vs: Seq<Value>) -> Seq<Json>
    decreases vs,
{
    if vs.len() == 0 {
        Seq::empty()
    } else {
        json_views(vs.drop_last()).push(json_view(vs.last()))
    }
}

/// The models of the members of a JSON object.
pub open spec fn entry_views(es: Seq<(String, Value)>) -> Seq<(Seq<char>, Json)>
    decreases es,
{
    if es.len() == 0 {
        Seq::empty()
    } else {
        entry_views(es.drop_last()).push((es.last().0@, json_view(es.last().1)))
    }
}

proof fn lemma_entry_views_index(es: Seq<(String, Value)>)
    ensures
        entry_views(es).len() == es.len(),
        forall|j: int|
            0 <= j < es.len() ==> #[trigger] entry_views(es)[j] == (es[j].0@, json_view(es[j].1)),
    decreases es.len(),
{
    if es.len() > 0 {
        lemma_entry_views_index(es.drop_last());
        assert forall|j: int| 0 <= j < es.len() implies #[trigger] entry_views(es)[j] == (
            es[j].0@,
            json_view(es[j].1),
        ) by {
            if j < es.len() - 1 {
                assert(es.drop_last()[j] == es[j]);
            }
        }
    }
}

/// The member named `k` is looked for.
pub open spec fn key_is(k: Seq<char>) -> spec_fn((Seq<char>, Json)) -> bool {
    |e: (Seq<char>, Json)| e.0 == k
}

/// The value of the first member named `k`.
pub open spec fn member(obj: Seq<(Seq<char>, Json)>, k: Seq<char>) -> Option<Json> {
    match find_first(obj, key_is(k)) {
        Some(e) => Some(e.1),
        None => None,
    }
}

/// The interpreted row: each column whose original name the source holds, under its alias,
/// then each relationship whose source member is an object, interpreted recursively.
pub open spec fn interpreted(source: Seq<(Seq<char>, Json)>, f: Fields) -> Seq<(Seq<char>, Json)>
    decreases f,
{
    column_part(source, f.columns@) + relationship_part(source, f.relationships@)
}

/// The columns that the source holds, under their aliases.
pub open spec fn column_part(source: Seq<(Seq<char>, Json)>, cols: Seq<(Alias, Original)>) -> Seq<
    (Seq<char>, Json),
>
    decreases cols.len(),
{
    if cols.len() == 0 {
        Seq::empty()
    } else {
        let r = column_part(source, cols.drop_last());
        match member(source, cols.last().1.0@) {
            Some(v) => r.push((cols.last().0.0@, v)),
            None => r,
        }
    }
}

/// The relationships whose source member is an object, interpreted with their own fields.
pub open spec fn relationship_part(
    source: Seq<(Seq<char>, Json)>,
    rels: Seq<(Alias, Relationship)>,
) -> Seq<(Seq<char>, Json)>
    decreases rels,
{
    if rels.len() == 0 {
        Seq::empty()
    } else {
        let r = relationship_part(source, rels.drop_last());
        let rel = rels.last().1;
        match member(source, rel.relationship@) {
            Some(Json::Object(o)) => r.push(
                (rels.last().0.0@, Json::Object(interpreted(o, rel.query.fields))),
            ),
            _ => r,
        }
    }
}

/// A copy of a JSON value.
pub fn copy_value(v: &Value) -> (r: Value)
    ensures
        json_view(r) == json_view(*v),
    decreases v,
{
    match v {
        Value::Null => Value::Null,
        Value::Bool(b) => Value::Bool(*b),
        Value::Number(n) => Value::Number(n.clone()),
        Value::Text(t) => Value::Text(t.clone()),
        Value::Array(vs) => Value::Array(copy_values(vs)),
        Value::Object(es) => Value::Object(copy_entries(es)),
    }
}

/// A copy of a list of JSON values.
pub fn copy_values(vs: &Vec<Value>) -> (r: Vec<Value>)
    ensures
        json_views(r@) == json_views(vs@),
    decreases vs@,
{
    let mut out: Vec<Value> = Vec::new();
    let mut i: usize = 0;
    while i < vs.len()
        invariant
            i <= vs@.len(),
            json_views(out@) == json_views(vs@.subrange(0, i as int)),
        decreases vs@.len() - i,
    {
        assert(decreases_to!(vs@ => vs@[i as int]));
        let c = copy_value(&vs[i]);
        let ghost before = out@;
        out.push(c);
        assert(out@.drop_last() =~= before);
        assert(vs@.subrange(0, i as int + 1).drop_last() =~= vs@.subrange(0, i as int));
        i += 1;
    }
    assert(vs@.subrange(0, i as int) =~= vs@);
    out
}

/// A copy of the members of a JSON object.
pub fn copy_entries(es: &Vec<(String, Value)>) -> (r: Vec<(String, Value)>)
    ensures
        entry_views(r@) == entry_views(es@),
    decreases es@,
{
    let mut out: Vec<(String, Value)> = Vec::new();
    let mut i: usize = 0;
    while i < es.len()
        invariant
            i <= es@.len(),
            entry_views(out@) == entry_views(es@.subrange(0, i as int)),
        decreases es@.len() - i,
    {
        assert(decreases_to!(es@ => es@[i as int].1));
        let c = copy_value(&es[i].1);
        let ghost before = out@;
        out.push((es[i].0.clone(), c));
        assert(out@.drop_last() =~= before);
        assert(es@.subrange(0, i as int + 1).drop_last() =~= es@.subrange(0, i as int));
        i += 1;
    }
    assert(es@.subrange(0, i as int) =~= es@);
    out
}

fn find_member<'a>(obj: &'a Vec<(String, Value)>, k: &String) -> (r: Option<&'a Value>)
    ensures
        match r {
            Some(v) => member(entry_views(obj@), k@) == Some(json_view(*v)),
            None => member(entry_views(obj@), k@) is None,
        },
{
    proof {
        lemma_entry_views_index(obj@);
    }
    let ghost p = key_is(k@);
    let mut i: usize = 0;
    while i < obj.len()
        invariant
            i <= obj@.len(),
            p == key_is(k@),
            entry_views(obj@).len() == obj@.len(),
            forall|j: int|
                0 <= j < obj@.len() ==> #[trigger] entry_views(obj@)[j] == (
                    obj@[j].0@,
                    json_view(obj@[j].1),
                ),
            forall|j: int| 0 <= j < i ==> !p(#[trigger] entry_views(obj@)[j]),
        decreases obj@.len() - i,
    {
        if obj[i].0 == *k {
            proof {
                assert(p(entry_views(obj@)[i as int]));
                lemma_find_first_at(entry_views(obj@), p, i as int);
            }
            return Some(&obj[i].1);
        }
        i += 1;
    }
    proof {
        lemma_find_first_none(entry_views(obj@), p);
    }
    None
}

fn interpret_fields(row: &Vec<(String, Value)>, fields: &Fields) -> (r: Vec<(String, Value)>)
    ensures
        entry_views(r@) == interpreted(entry_views(row@), *fields),
    decreases fields,
{
    let ghost source = entry_views(row@);
    let mut out: Vec<(String, Value)> = Vec::new();
    let mut i: usize = 0;
    while i < fields.columns.len()
        invariant
            i <= fields.columns@.len(),
            source == entry_views(row@),
            entry_views(out@) == column_part(source, fields.columns@.subrange(0, i as int)),
        decreases fields.columns@.len() - i,
    {
        let (alias, original) = &fields.columns[i];
        assert(fields.columns@.subrange(0, i as int + 1).drop_last() =~= fields.columns@.subrange(
            0,
            i as int,
        ));
        match find_member(row, &original.0) {
            Some(v) => {
                let ghost before = out@;
                out.push((alias.0.clone(), copy_value(v)));
                assert(out@.drop_last() =~= before);
            },
            None => {},
        }
        i += 1;
    }
    assert(fields.columns@.subrange(0, i as int) =~= fields.columns@);
    let ghost cols = entry_views(out@);
    let mut j: usize = 0;
    while j < fields.relationships.len()
        invariant
            j <= fields.relationships@.len(),
            source == entry_views(row@),
            cols == column_part(source, fields.columns@),
            entry_views(out@) == cols + relationship_part(
                source,
                fields.relationships@.subrange(0, j as int),
            ),
        decreases fields.relationships@.len() - j,
    {
        let (alias, relationship) = &fields.relationships[j];
        assert(fields.relationships@.subrange(0, j as int + 1).drop_last()
            =~= fields.relationships@.subrange(0, j as int));
        assert(fields.relationships@.subrange(0, j as int + 1).last() == fields.relationships@[j as int]);
        match find_member(row, &relationship.relationship) {
            Some(Value::Object(obj)) => {
                assert(decreases_to!(*fields => fields.relationships@[j as int].1.query.fields));
                let nested = interpret_fields(obj, &relationship.query.fields);
                let ghost before = out@;
                out.push((alias.0.clone(), Value::Object(nested)));
                assert(out@.drop_last() =~= before);
                let ghost rel_pre = fields.relationships@.subrange(0, j as int);
                let ghost rel_next = fields.relationships@.subrange(0, j as int + 1);
                assert(alias.0@ == fields.relationships@[j as int].0.0@);
                assert(relationship.relationship@ == fields.relationships@[j as int].1.relationship@);
                assert(member(source, relationship.relationship@) == Some(
                    Json::Object(entry_views(obj@)),
                ));
                assert(relationship_part(source, rel_next) == relationship_part(source, rel_pre).push(
                    (alias.0@, Json::Object(interpreted(entry_views(obj@), relationship.query.fields))),
                ));
                assert(entry_views(out@) == entry_views(before).push(
                    (alias.0@, json_view(Value::Object(nested))),
                ));
                assert(entry_views(out@) =~= cols + relationship_part(
                    source,
                    fields.relationships@.subrange(0, j as int + 1),
                ));
            },
            _ => {},
        }
        j += 1;
    }
    assert(fields.relationships@.subrange(0, j as int) =~= fields.relationships@);
    out
}

impl Fields {
    /// The row that these fields ask for, read from one OData result row.
    pub fn from_odata_response(&self, response: &Vec<(String, Value)>) -> (r: Vec<(String, Value)>)
        ensures
            entry_views(r@) == interpreted(entry_views(response@), *self),
    {
        interpret_fields(response, self)
    }
}

/// A page of OData results.
#[derive(Debug)]
pub struct Response {
    pub context: String,
    pub value: Vec<Vec<(String, Value)>>,
}

impl Response {
    /// Rebuilds the row that the query asked for from one OData result row. A missing column
    /// is left out; a relationship is kept only when its member is an object.
    pub fn interpret(result_row: &Vec<(String, Value)>, query_structure: &Query) -> (r: Vec<
        (String, Value),
    >)
        ensures
            entry_views(r@) == interpreted(entry_views(result_row@), query_structure.fields),
    {
        interpret_fields(result_row, &query_structure.fields)
    }
}

} // verus!
