//! An embeddable in-memory document store: schema-less records addressed by
//! an auto-incrementing numeric id, queryable through a small textual
//! equality-predicate language, with optional per-field secondary indices.

pub mod collection;
pub mod datatypes;
pub mod document;
pub mod errors;
pub mod index;
pub mod kvlist;
pub mod memstore;
pub mod query_executor;
pub mod query_ingestor;
pub mod query_proc;
