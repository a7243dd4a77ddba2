//! Revision: the verified core of the Revision workstation — the command
//! journal's undo/redo rules, replay planning, pointer and keyboard routing,
//! the shadow blur, and the counter-field editing of the control skin.
use vstd::prelude::*;

pub mod numeral;
pub mod store;
pub mod testkit;
pub mod ui_kit;
pub mod ui_mech;

verus! {

} // verus!
