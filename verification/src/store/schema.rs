//! The schema's constants: its version, the meta keys, and the model tables.
use vstd::prelude::*;

verus! {

/// Bumped only by a migration, which is a checkpoint in its own right.
pub const SCHEMA_VERSION: i64 = 1;

pub const META_SCHEMA_VERSION: &'static str = "schema_version";
pub const META_PPQ: &'static str = "ppq";
pub const META_CREATED: &'static str = "created";
pub const META_DEFAULT_TUNING_ID: &'static str = "default_tuning_id";
pub const META_ROOT_PHRASE_ID: &'static str = "root_phrase_id";

/// The model tables, in dependency order — used by state comparison. History
/// (`journal`, `snapshot`) is not model state: replay reproduces the model, not
/// the history it was replayed from.
pub const MODEL_TABLE: [&'static str; 11] = [
    "meta",
    "tuning",
    "tuning_note",
    "materialized_tuning_instance",
    "materialized_tuning",
    "scale",
    "phrase",
    "track",
    "event",
    "phrase_instance",
    "tempo_point",
];

} // verus!
