//! Replay: rebuild a project's model state by re-applying its history.
//!
//! Undo and redo markers are replayed as what they were, so a session that was
//! undone and partly redone reproduces its actual final state rather than the
//! state it would have had without them.
use vstd::prelude::*;

use crate::store::error::StoreError;
use crate::store::journal::{is_command, is_redo, is_undo, Entry, KIND_COMMAND, KIND_REDO, KIND_UNDO};

verus! {

/// Which commands one journal entry contributes to a replay.
#[derive(Debug, PartialEq, Eq, Structural)]
pub enum Batch {
    /// The resolved command this command entry recorded.
    Recorded { seq: i64 },
    /// The undo payload of the gesture an undo marker names.
    Undo { gesture: i64 },
    /// The redo payload of the gesture a redo marker names.
    Redo { gesture: i64 },
    /// Nothing: a kind the journal's check constraint no longer allows.
    Nothing,
}

/// What the error for a marker without a target says.
pub open spec fn missing_target(e: Entry) -> StoreError {
    StoreError::NotFound { kind: "journal target_gesture", id: e.seq }
}

/// The gesture a marker names, or `NotFound` when it names none.
pub fn expect_target(entry: &Entry) -> (r: Result<i64, StoreError>)
    ensures
        match entry.target_gesture {
            Some(g) => r == Ok::<i64, StoreError>(g),
            None => r == Err::<i64, StoreError>(missing_target(*entry)),
        },
{
    match entry.target_gesture {
        Some(g) => Ok(g),
        None => Err(StoreError::NotFound { kind: "journal target_gesture", id: entry.seq }),
    }
}

/// What replaying `entry` applies: a command entry its own resolved command,
/// an undo marker the undo payload of its target, a redo marker the redo
/// payload of its target.
pub fn replay_batch(entry: &Entry) -> (r: Result<Batch, StoreError>)
    ensures
        is_command(*entry) ==> r == Ok::<Batch, StoreError>(Batch::Recorded { seq: entry.seq }),
        is_undo(*entry) ==> r == match entry.target_gesture {
            Some(g) => Ok(Batch::Undo { gesture: g }),
            None => Err(missing_target(*entry)),
        },
        is_redo(*entry) ==> r == match entry.target_gesture {
            Some(g) => Ok(Batch::Redo { gesture: g }),
            None => Err(missing_target(*entry)),
        },
        !is_command(*entry) && !is_undo(*entry) && !is_redo(*entry) ==> r
            == Ok::<Batch, StoreError>(Batch::Nothing),
{
    proof {
        crate::store::journal::lemma_kinds_distinct();
    }
    if entry.kind == KIND_COMMAND.to_owned() {
        Ok(Batch::Recorded { seq: entry.seq })
    } else if entry.kind == KIND_UNDO.to_owned() {
        match expect_target(entry) {
            Ok(g) => Ok(Batch::Undo { gesture: g }),
            Err(e) => Err(e),
        }
    } else if entry.kind == KIND_REDO.to_owned() {
        match expect_target(entry) {
            Ok(g) => Ok(Batch::Redo { gesture: g }),
            Err(e) => Err(e),
        }
    } else {
        Ok(Batch::Nothing)
    }
}

} // verus!
