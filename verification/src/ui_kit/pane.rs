//! The scrollable pane's axes and furniture.
use vstd::prelude::*;

verus! {

/// Which of the two axes. Named rather than indexed: `bar[0]` reads as nothing.
#[derive(Debug, Clone, Copy, PartialEq, Eq, Structural)]
pub enum Axis {
    Horizontal,
    Vertical,
}

/// Which bars a pane reserves space for — **whether or not they are needed**.
/// Reserving makes layout a pure function of window size and extent.
#[derive(Debug, Clone, Copy, PartialEq, Eq, Default)]
pub enum BarPolicy {
    #[default]
    Both,
    /// The log window: text wraps, so only one axis ever scrolls.
    Vertical,
    Horizontal,
    Neither,
}

impl BarPolicy {
    /// Does this policy reserve a bar on `axis`?
    pub fn has(self, axis: Axis) -> (r: bool)
        ensures
            r == match self {
                BarPolicy::Both => true,
                BarPolicy::Vertical => axis == Axis::Vertical,
                BarPolicy::Horizontal => axis == Axis::Horizontal,
                BarPolicy::Neither => false,
            },
    {
        match (self, axis) {
            (BarPolicy::Both, _) => true,
            (BarPolicy::Vertical, Axis::Vertical) => true,
            (BarPolicy::Horizontal, Axis::Horizontal) => true,
            _ => false,
        }
    }
}

/// Which part of a pane's furniture the pointer is over. The interior is not
/// one of these: content is not a control.
#[derive(Debug, Clone, Copy, PartialEq, Eq)]
pub enum Part {
    Thumb(Axis),
    Track(Axis),
    ZoomOut(Axis),
    ZoomIn(Axis),
    ZoomSlider(Axis),
}

impl Part {
    /// The axis this part belongs to.
    pub fn axis(self) -> (r: Axis)
        ensures
            r == match self {
                Part::Thumb(a) => a,
                Part::Track(a) => a,
                Part::ZoomOut(a) => a,
                Part::ZoomIn(a) => a,
                Part::ZoomSlider(a) => a,
            },
    {
        match self {
            Part::Thumb(a) | Part::Track(a) | Part::ZoomOut(a) | Part::ZoomIn(a) | Part::ZoomSlider(
                a,
            ) => a,
        }
    }
}

} // verus!
