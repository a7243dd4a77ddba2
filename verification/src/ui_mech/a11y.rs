//! The accessibility slot: what a node *is*, as an assistive technology would
//! classify it.
use vstd::prelude::*;

verus! {

/// Deliberately small: the Control Bar's census plus the containers it needs.
#[derive(Debug, Clone, Copy, PartialEq, Eq, Default)]
pub enum Role {
    #[default]
    Group,
    Window,
    Button,
    /// A button with a latched state — Loop, Punch, Wait.
    Toggle,
    /// A value that can be typed or dragged — Counter, Tempo, In/Out.
    Field,
    /// A continuous control — the Shuttle.
    Slider,
    PopUp,
    Label,
}

} // verus!
