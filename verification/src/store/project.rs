//! The project: a SQLite database that *is* the model. Opening one checks that
//! it is a Revision store of the schema version this code speaks.
use vstd::prelude::*;

use crate::numeral::{parse_i64, parsed_i64};
use crate::store::error::StoreError;
use crate::store::schema::SCHEMA_VERSION;

verus! {

/// Decide whether a database whose meta table stores `stored` as its schema
/// version can be opened: a missing or unreadable version is `NotAProject`
/// naming `path`; another version is `SchemaVersion`.
pub fn check_schema_version(path: String, stored: Option<String>) -> (r: Result<(), StoreError>)
    ensures
        match stored {
            None => r matches Err(StoreError::NotAProject(p)) && p@ == path@,
            Some(text) => match parsed_i64(text@) {
                None => r matches Err(StoreError::NotAProject(p)) && p@ == path@,
                Some(v) => if v == SCHEMA_VERSION {
                    r is Ok
                } else {
                    r matches Err(StoreError::SchemaVersion { found, expected }) && found == v
                        && expected == SCHEMA_VERSION
                },
            },
        },
{
    let text = match stored {
        Some(text) => text,
        None => return Err(StoreError::NotAProject(path)),
    };
    let version = match parse_i64(text.as_str()) {
        Some(v) => v,
        None => return Err(StoreError::NotAProject(path)),
    };
    if version != SCHEMA_VERSION {
        return Err(StoreError::SchemaVersion { found: version, expected: SCHEMA_VERSION });
    }
    Ok(())
}

} // verus!
