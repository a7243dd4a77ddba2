//! The control-skin widget kit's verified core: widget identity, the counter's
//! field-by-field editing, the pane's axes and parts, and the skin's roles.
use vstd::prelude::*;

pub mod kit;
pub mod pane;
pub mod skin;

verus! {

} // verus!
