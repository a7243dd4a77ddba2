//! Input as the contract states it: the vocabulary events are made of.
use vstd::prelude::*;

verus! {

/// An opaque handle to whatever the host hit-tested. The mechanism routes it and
/// never interprets it.
#[derive(Debug, Clone, Copy, PartialEq, Eq, Hash, Structural)]
pub struct TargetId(pub u64);

/// Why focus moved. Every transfer is one or the other, so "nothing steals focus"
/// is checkable rather than aspirational.
#[derive(Debug, Clone, Copy, PartialEq, Eq)]
pub enum Reason {
    User,
    Programmatic,
}

#[derive(Debug, Clone, Copy, PartialEq, Eq, Default)]
pub struct Modifier {
    pub shift: bool,
    pub ctrl: bool,
    pub alt: bool,
    /// Windows key / Command.
    pub meta: bool,
}

#[derive(Debug, Clone, Copy, PartialEq, Eq)]
pub enum Button {
    Left,
    Middle,
    Right,
    Other(u16),
}

/// A key that is not a character: the ones bindings and key equivalents need.
#[derive(Debug, Clone, Copy, PartialEq, Eq)]
pub enum Named {
    Enter,
    Escape,
    Backspace,
    Delete,
    Tab,
    Space,
    Left,
    Right,
    Up,
    Down,
    Home,
    End,
    PageUp,
    PageDown,
    Function(u8),
    Other,
}

#[derive(Debug, Clone, PartialEq, Eq)]
pub enum KeyCode {
    Char(char),
    Named(Named),
}

/// Composed text, IME-mediated. Numeric fields consume this, never raw keys.
#[derive(Debug, Clone, PartialEq, Eq)]
pub struct Text {
    pub text: String,
}

/// What the pointer should look like over a widget. Requested per frame; the
/// mechanism applies the last request and resets when nothing asks.
#[derive(Debug, Clone, Copy, PartialEq, Eq, Default)]
pub enum CursorShape {
    #[default]
    Default,
    Text,
    Hand,
    ResizeHorizontal,
    ResizeVertical,
    Crosshair,
    /// Hidden — used by relative drag, and by nothing else.
    Hidden,
}

} // verus!
