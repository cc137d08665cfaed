//! Collections as the query engine sees them: each relationship becomes a foreign key onto the
//! key of the related collection, and each key a uniqueness constraint.

use crate::error::Error;
use crate::lookup::{find_named, lemma_map_all_prefix, lemma_map_all_step, map_all, named};
use crate::ndc::{pair_entries, Collection};
use crate::types::qualified_text;
use crate::text::views;
use vstd::prelude::*;

verus! {

/// A foreign key: this collection's columns mapped onto the foreign collection's columns.
#[derive(Debug)]
pub struct ForeignKeyConstraint {
    pub column_mapping: Vec<(String, String)>,
    pub foreign_collection: String,
}

/// A set of columns whose values identify a row.
#[derive(Debug)]
pub struct UniquenessConstraint {
    pub unique_columns: Vec<String>,
}

/// A collection with its type name and constraints.
#[derive(Debug)]
pub struct CollectionInfo {
    pub name: String,
    pub collection_type: String,
    pub foreign_keys: Vec<(String, ForeignKeyConstraint)>,
    pub uniqueness_constraints: Vec<(String, UniquenessConstraint)>,
}

/// The model of a foreign key: column mapping and foreign collection.
pub type ForeignKeyModel = (Seq<(Seq<char>, Seq<char>)>, Seq<char>);

/// The model of a `CollectionInfo`.
pub struct CollectionInfoModel {
    pub name: Seq<char>,
    pub collection_type: Seq<char>,
    pub foreign_keys: Seq<(Seq<char>, ForeignKeyModel)>,
    pub uniqueness_constraints: Seq<(Seq<char>, Seq<Seq<char>>)>,
}

impl View for CollectionInfo {
    type V = CollectionInfoModel;

    open spec fn view(&self) -> CollectionInfoModel {
        CollectionInfoModel {
            name: self.name@,
            collection_type: self.collection_type@,
            foreign_keys: self.foreign_keys@.map_values(
                |f: (String, ForeignKeyConstraint)|
                    (f.0@, (pair_entries(f.1.column_mapping@), f.1.foreign_collection@)),
            ),
            uniqueness_constraints: self.uniqueness_constraints@.map_values(
                |u: (String, UniquenessConstraint)| (u.0@, views(u.1.unique_columns@)),
            ),
        }
    }
}

/// The foreign key for one relationship: the navigation property maps onto the key of the
/// target collection, which must exist.
pub open spec fn foreign_key(collections: Seq<Collection>) -> spec_fn((Seq<char>, Seq<char>)) -> Option<
    (Seq<char>, ForeignKeyModel),
> {
    |rel: (Seq<char>, Seq<char>)|
        match named(collections, rel.1) {
            Some(target) => Some((rel.0, (seq![(rel.0, target.key@)], rel.1))),
            None => None,
        }
}

/// The info for one collection, among `collections`.
pub open spec fn collection_info(collections: Seq<Collection>) -> spec_fn(Collection) -> Option<
    CollectionInfoModel,
> {
    |c: Collection|
        match map_all(pair_entries(c.relationships@), foreign_key(collections)) {
            Some(fks) => Some(
                CollectionInfoModel {
                    name: c.name@,
                    collection_type: qualified_text(c.collection_type@),
                    foreign_keys: fks,
                    uniqueness_constraints: seq![
                        (c.name@ + "By"@ + c.key@, seq![c.key@]),
                    ],
                },
            ),
            None => None,
        }
}

proof fn lemma_pair_entries_index(v: Seq<(String, String)>, i: int)
    requires
        0 <= i < v.len(),
    ensures
        pair_entries(v)[i] == (v[i].0@, v[i].1@),
        pair_entries(v).len() == v.len(),
{
}

fn info_for(collections: &Vec<Collection>, c: &Collection) -> (r: Result<CollectionInfo, Error>)
    ensures
        match r {
            Ok(info) => collection_info(collections@)(*c) == Some(info@),
            Err(e) => collection_info(collections@)(*c) is None && e is Reference,
        },
{
    let ghost f = foreign_key(collections@);
    let ghost rels = pair_entries(c.relationships@);
    let mut foreign_keys: Vec<(String, ForeignKeyConstraint)> = Vec::new();
    let mut i: usize = 0;
    while i < c.relationships.len()
        invariant
            i <= c.relationships@.len(),
            f == foreign_key(collections@),
            rels == pair_entries(c.relationships@),
            rels.len() == c.relationships@.len(),
            map_all(rels.subrange(0, i as int), f) == Some(
                foreign_keys@.map_values(
                    |f: (String, ForeignKeyConstraint)|
                        (f.0@, (pair_entries(f.1.column_mapping@), f.1.foreign_collection@)),
                ),
            ),
        decreases c.relationships@.len() - i,
    {
        let (path, target) = &c.relationships[i];
        proof {
            lemma_pair_entries_index(c.relationships@, i as int);
            lemma_map_all_step(rels, f, i as int);
        }
        match find_named(collections, target.as_str()) {
            Some(t) => {
                let ghost before = foreign_keys@;
                let mapping = vec![(path.clone(), t.key.clone())];
                assert(pair_entries(mapping@) =~= seq![(path@, t.key@)]);
                foreign_keys.push(
                    (
                        path.clone(),
                        ForeignKeyConstraint { column_mapping: mapping, foreign_collection: target.clone() },
                    ),
                );
                assert(foreign_keys@.map_values(
                    |f: (String, ForeignKeyConstraint)|
                        (f.0@, (pair_entries(f.1.column_mapping@), f.1.foreign_collection@)),
                ) =~= before.map_values(
                    |f: (String, ForeignKeyConstraint)|
                        (f.0@, (pair_entries(f.1.column_mapping@), f.1.foreign_collection@)),
                ).push((path@, (seq![(path@, t.key@)], target@))));
            },
            None => {
                proof {
                    lemma_map_all_prefix(rels, f, i as int + 1);
                }
                return Err(Error::Reference(target.clone()));
            },
        }
        i += 1;
    }
    assert(rels.subrange(0, i as int) =~= rels);
    let mut constraint_name = c.name.clone();
    constraint_name.append("By");
    constraint_name.append(c.key.as_str());
    let unique_columns = vec![c.key.clone()];
    assert(views(unique_columns@) =~= seq![c.key@]);
    let uniqueness_constraints = vec![(constraint_name, UniquenessConstraint { unique_columns })];
    let info = CollectionInfo {
        name: c.name.clone(),
        collection_type: c.collection_type.to_string(),
        foreign_keys,
        uniqueness_constraints,
    };
    assert(info@.uniqueness_constraints =~= seq![(c.name@ + "By"@ + c.key@, seq![c.key@])]);
    Ok(info)
}

/// The collections with their constraints. A relationship onto a collection that does not exist
/// is a reference error.
pub fn translate(collections: &Vec<Collection>) -> (r: Result<Vec<CollectionInfo>, Error>)
    ensures
        match r {
            Ok(v) => map_all(collections@, collection_info(collections@)) == Some(
                v@.map_values(|i: CollectionInfo| i@),
            ),
            Err(e) => map_all(collections@, collection_info(collections@)) is None && e is Reference,
        },
{
    let ghost f = collection_info(collections@);
    let mut out: Vec<CollectionInfo> = Vec::new();
    let mut i: usize = 0;
    while i < collections.len()
        invariant
            i <= collections@.len(),
            f == collection_info(collections@),
            map_all(collections@.subrange(0, i as int), f) == Some(
                out@.map_values(|i: CollectionInfo| i@),
            ),
        decreases collections@.len() - i,
    {
        proof {
            lemma_map_all_step(collections@, f, i as int);
        }
        match info_for(collections, &collections[i]) {
            Ok(info) => {
                let ghost before = out@.map_values(|i: CollectionInfo| i@);
                out.push(info);
                assert(out@.map_values(|i: CollectionInfo| i@) =~= before.push(out@.last()@));
            },
            Err(e) => {
                proof {
                    lemma_map_all_prefix(collections@, f, i as int + 1);
                }
                return Err(e);
            },
        }
        i += 1;
    }
    assert(collections@.subrange(0, i as int) =~= collections@);
    Ok(out)
}

} // verus!
