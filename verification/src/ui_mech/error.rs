//! Failures the mechanism can report. Platform errors are carried as their
//! text, so nothing above the mechanism can name a platform type.
use vstd::prelude::*;

verus! {

#[derive(Debug)]
pub enum MechError {
    EventLoop(String),
    Window(String),
    Surface(String),
}

} // verus!
