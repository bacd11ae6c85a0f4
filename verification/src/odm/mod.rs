//! Object-document mapping: schemas, queries, updates and collections.
pub mod collection;
pub mod collection_laws;
pub mod error;
pub mod laws;
pub mod query;
pub mod query_laws;
pub mod schema;
pub mod schema_laws;
pub mod transaction;
pub mod update;
pub mod update_laws;
