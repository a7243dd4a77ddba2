//! The skin's semantic colour systems: [`Role`] for parameters and [`State`] for
//! transport, and the hover lift that modulates a colour rather than replacing it.
use vstd::prelude::*;

use crate::ui_mech::paint::Color;

verus! {

/// A parameter group's role. **Hue is the role, never the instrument**: a role
/// keeps its colour on every panel.
#[derive(Debug, Clone, Copy, PartialEq, Eq, Hash)]
pub enum Role {
    Lfo,
    Oscillator,
    Filter,
    Envelope,
    Effect,
}

impl Role {
    /// Canonical panel order, so instruments read against one another.
    pub const ORDER: [Role; 5] = [Role::Lfo, Role::Oscillator, Role::Filter, Role::Envelope, Role::Effect];
}

/// A transport control's condition.
#[derive(Debug, Clone, Copy, PartialEq, Eq, Hash)]
pub enum State {
    /// Nothing special — ordinary chrome.
    Idle,
    /// Latched on: playing, looping, punched in.
    Active,
    /// Record-armed, awaiting the transport. Flashes.
    Armed,
    /// Recording now.
    Recording,
    /// Present, visible, and not operable at the current settings.
    Inert,
}

/// `x + amount`, saturating at 255.
pub open spec fn lifted(x: u8, amount: u8) -> u8 {
    if x as int + amount as int > 255 {
        255
    } else {
        (x as int + amount as int) as u8
    }
}

/// Lift a colour for hover or press: each channel brighter by `amount`,
/// saturating, alpha untouched. It modulates the base rather than replacing it,
/// so a latched control still reads as latched while hovered.
pub fn lift(base: Color, amount: u8) -> (c: Color)
    ensures
        c.r == lifted(base.r, amount),
        c.g == lifted(base.g, amount),
        c.b == lifted(base.b, amount),
        c.a == base.a,
        c.r >= base.r && c.g >= base.g && c.b >= base.b,
{
    Color::rgba(
        base.r.saturating_add(amount),
        base.g.saturating_add(amount),
        base.b.saturating_add(amount),
        base.a,
    )
}

/// How much a press lifts a control's colour.
pub const PRESS_LIFT: u8 = 52;

/// How much hovering lifts a control's colour.
pub const HOVER_LIFT: u8 = 22;

/// A colour lifted by `amount`, channel by channel.
pub open spec fn lifted_color(base: Color, amount: u8) -> Color {
    Color {
        r: lifted(base.r, amount),
        g: lifted(base.g, amount),
        b: lifted(base.b, amount),
        a: base.a,
    }
}

/// What interaction makes of a control's base colour.
pub open spec fn modulated(base: Color, operable: bool, pressed: bool, hovered: bool) -> Color {
    if !operable {
        base
    } else if pressed {
        lifted_color(base, PRESS_LIFT)
    } else if hovered {
        lifted_color(base, HOVER_LIFT)
    } else {
        base
    }
}

/// A control's face as interaction shows it: its intrinsic base, lifted more
/// for a press (still under the pointer) than for a hover. A control that
/// cannot be operated shows its base whatever the pointer does.
pub fn modulate(base: Color, operable: bool, pressed: bool, hovered: bool) -> (c: Color)
    ensures
        c == modulated(base, operable, pressed, hovered),
{
    if !operable {
        base
    } else if pressed {
        lift(base, PRESS_LIFT)
    } else if hovered {
        lift(base, HOVER_LIFT)
    } else {
        base
    }
}

/// Interaction modulates and never replaces: the modulated colour is never
/// darker than the base in any channel, keeps its alpha, and a press shows
/// at least as bright as a hover.
pub proof fn lemma_interaction_only_lifts(base: Color, operable: bool, pressed: bool, hovered: bool)
    ensures
        ({
            let c = modulated(base, operable, pressed, hovered);
            c.r >= base.r && c.g >= base.g && c.b >= base.b && c.a == base.a
        }),
        ({
            let p = modulated(base, operable, true, hovered);
            let h = modulated(base, operable, false, true);
            p.r >= h.r && p.g >= h.g && p.b >= h.b
        }),
{
}

} // verus!
