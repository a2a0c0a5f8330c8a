//! Query processing: the result type and the pipeline that turns a textual
//! predicate into documents (lexer, then parser, then executor).

use crate::document::Document;
use crate::query_executor::{candidate_ids, candidates_all_valid, documents_match_candidates,
    has_invalid_candidate, process_instructions};
use crate::query_ingestor::{ingest, spec_ingest};
use crate::collection::{Indices, Store};
use vstd::prelude::*;

verus! {

/// The outcome of a query: the matching documents, a malformed-query
/// rejection, or an internal index-to-store inconsistency report.
#[derive(Debug)]
pub enum QueryResult {
    Data(Vec<Document>),
    InvalidQueryError,
    InvalidIdError,
}

/// Produces the results of a query against a store and its indices: the
/// query text is tokenized and parsed, then its equality predicates are
/// evaluated (see [`process_instructions`]). A query that the lexer
/// rejects yields `InvalidQueryError` and no partial results.
pub fn process_query(command: &String, store: &Store, indices: &Indices) -> (r: QueryResult)
    requires
        store.wf(),
        indices.wf(),
    ensures
        match r {
            QueryResult::InvalidQueryError => spec_ingest(command@) is None,
            QueryResult::Data(docs) => {
                &&& spec_ingest(command@) is Some
                &&& candidates_all_valid(spec_ingest(command@).unwrap(), store@, indices@)
                &&& documents_match_candidates(
                    docs@,
                    candidate_ids(spec_ingest(command@).unwrap(), store@, indices@),
                    store@,
                )
            },
            QueryResult::InvalidIdError => {
                &&& spec_ingest(command@) is Some
                &&& has_invalid_candidate(spec_ingest(command@).unwrap(), store@, indices@)
            },
        },
{
    match ingest(command) {
        Ok(instructions) => process_instructions(instructions, store, indices),
        Err(e) => e,
    }
}

} // verus!
