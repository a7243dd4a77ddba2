//! Errors from the store: what only a database can discover, and what the
//! journal's own rules refuse.
use vstd::prelude::*;

verus! {

/// `rusqlite::Error`, carried opaquely: nothing about its contents is read.
#[verifier::external_type_specification]
#[verifier::external_body]
pub struct ExSqliteError(rusqlite::Error);

/// `serde_json::Error`, carried opaquely: nothing about its contents is read.
#[verifier::external_type_specification]
#[verifier::external_body]
pub struct ExJsonError(serde_json::Error);

#[derive(Debug)]
pub enum StoreError {
    Sqlite(rusqlite::Error),
    Json(serde_json::Error),
    /// No row of this kind with this id.
    NotFound { kind: &'static str, id: i64 },
    /// Nesting `child` inside `parent` would create a cycle.
    PhraseCycle { child: i64, parent: i64 },
    /// The tuning has no materialization yet.
    NotMaterialized(i64),
    /// The file at this path is not a Revision store (no schema version).
    NotAProject(String),
    /// The project's schema version is not the one this store speaks.
    SchemaVersion { found: i64, expected: i64 },
}

} // verus!
