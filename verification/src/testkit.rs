//! Test support that the library's own logic decides: whether a rendered
//! screenshot matches its committed golden master.
use vstd::prelude::*;

pub mod golden;

verus! {

} // verus!
