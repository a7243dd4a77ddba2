//! What a piece of text is *for*. Widgets ask for a role, never a family.
use vstd::prelude::*;

verus! {

#[derive(Debug, Clone, Copy, PartialEq, Eq, Hash, Default)]
pub enum FontRole {
    /// Labels, names, menus, prose — anything read as language.
    #[default]
    Ui,
    /// Counters, tempo, positions — anything read as a number. Monospaced, so
    /// digits cannot shift as values change.
    Numeric,
}

} // verus!
