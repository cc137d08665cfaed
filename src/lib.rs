//! Translation between OData metadata and a connector's schema vocabulary, and compilation of
//! structured queries into OData resource URLs.

pub mod collection_info;
pub mod config;
pub mod error;
pub mod lookup;
pub mod map_iter;
pub mod models;
pub mod ndc;
pub mod odata;
pub mod query;
pub mod response;
pub mod text;
pub mod types;

use crate::error::Error;
use crate::ndc::{translate_document, translate_schemas};
use vstd::prelude::*;

verus! {

/// Translates a metadata document into the target schema: the collections, scalar types,
/// object types, functions and procedures of all its schemas.
pub fn prepare_odata_edmx(metadata: odata::EDMX) -> (r: Result<ndc::Schema, Error>)
    ensures
        match r {
            Ok(s) => translate_document(metadata) == Some(s@),
            Err(e) => translate_document(metadata) is None && e is Reference,
        },
{
    let schemas = &metadata.data_services.schema;
    let mut out = ndc::Schema {
        collections: Vec::new(),
        scalar_types: Vec::new(),
        object_types: Vec::new(),
        functions: Vec::new(),
        procedures: Vec::new(),
    };
    assert(out@.scalar_types =~= Set::empty());
    assert(out@.collections =~= Seq::empty());
    assert(out@.object_types =~= Seq::empty());
    assert(out@.functions =~= Seq::empty());
    assert(out@.procedures =~= Seq::empty());
    assert(out@ == ndc::empty_schema_model());
    let mut i: usize = 0;
    while i < schemas.len()
        invariant
            i <= schemas@.len(),
            schemas@ == metadata.data_services.schema@,
            ndc::scalar_names(out.scalar_types@).no_duplicates(),
            translate_schemas(metadata, schemas@.subrange(0, i as int)) == Some(out@),
        decreases schemas@.len() - i,
    {
        let schema = &schemas[i];
        assert(schemas@.subrange(0, i as int + 1).drop_last() =~= schemas@.subrange(0, i as int));
        let ghost before = out@;
        match ndc::check_keys(&metadata, schema) {
            Ok(_) => {},
            Err(e) => {
                proof {
                    ndc::lemma_translate_schemas_prefix(metadata, schemas@, i as int + 1);
                }
                return Err(e);
            },
        }
        let mut collections = match ndc::Collection::extract_from(&metadata, schema) {
            Ok(c) => c,
            Err(e) => {
                proof {
                    ndc::lemma_translate_schemas_prefix(metadata, schemas@, i as int + 1);
                }
                return Err(e);
            },
        };
        let mut object_types = match ndc::ObjectType::extract_from(&metadata, schema) {
            Ok(o) => o,
            Err(e) => {
                proof {
                    ndc::lemma_translate_schemas_prefix(metadata, schemas@, i as int + 1);
                }
                return Err(e);
            },
        };
        let mut functions = ndc::Function::extract_from(schema);
        let mut procedures = ndc::Procedure::extract_from(schema);
        let scalars = ndc::ScalarType::extract_from(schema);
        out.collections.append(&mut collections);
        out.object_types.append(&mut object_types);
        out.functions.append(&mut functions);
        out.procedures.append(&mut procedures);
        ndc::merge_scalars(&mut out.scalar_types, scalars);
        proof {
            let s = schemas@[i as int];
            assert(schemas@.subrange(0, i as int + 1).last() == s);
            let m = translate_schemas(metadata, schemas@.subrange(0, i as int + 1))->0;
            assert(out@.collections =~= m.collections);
            assert(out@.object_types =~= m.object_types);
            assert(out@.functions =~= m.functions);
            assert(out@.procedures =~= m.procedures);
            assert(out@.scalar_types =~= m.scalar_types);
        }
        i += 1;
    }
    assert(schemas@.subrange(0, i as int) =~= schemas@);
    Ok(out)
}

} // verus!
