//! An in-process document store with script-defined predicates.
//!
//! Documents are JSON-shaped values stored under string keys. Callers
//! register named predicates written in Lua; a query compiles the named
//! predicate, runs it over every stored document, and reports the matching
//! (key, document) pairs. A predicate error on one document never aborts a
//! scan: the document is skipped and a diagnostic is emitted.

pub mod engine;
pub mod model;
pub mod store;
pub mod laws;
pub mod test_data;

pub use model::Outcome;
pub use store::Database;
pub use store::DbError;
pub use test_data::UdfDefinition;
pub use test_data::get_test_documents;
pub use test_data::get_test_udfs;
