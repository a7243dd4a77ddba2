//! Store-primary persistence: the command journal and the rules that decide
//! undo, redo and replay over it.
use vstd::prelude::*;

pub mod error;
pub mod exec;
pub mod journal;
pub mod project;
pub mod replay;
pub mod schema;

verus! {

} // verus!
