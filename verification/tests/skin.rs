use revision::ui_kit::skin::{lift, modulate, Role, State};
use revision::ui_mech::paint::Color;

#[test]
fn canonical_order_is_fixed() {
    assert_eq!(
        Role::ORDER,
        [
            Role::Lfo,
            Role::Oscillator,
            Role::Filter,
            Role::Envelope,
            Role::Effect
        ]
    );
}

#[test]
fn lift_brightens_every_channel_and_keeps_alpha() {
    let base = Color::rgba(10, 250, 128, 77);
    let lifted = lift(base, 22);
    assert_eq!(lifted, Color::rgba(32, 255, 150, 77));
}

#[test]
fn lift_modulates_rather_than_replaces() {
    // The default skin's bases for Idle, Active and Recording.
    let bases = [
        (State::Idle, Color::rgb(62, 65, 71)),
        (State::Active, Color::rgb(60, 167, 221)),
        (State::Recording, Color::rgb(230, 55, 61)),
    ];
    for (state, base) in bases {
        let hover = lift(base, 22);
        assert!(hover.r >= base.r && hover.g >= base.g && hover.b >= base.b);
        for (other, other_base) in bases {
            if other != state {
                assert_ne!(hover, other_base, "hover collided with another state");
            }
        }
    }
}

#[test]
fn a_press_lifts_more_than_a_hover() {
    let base = Color::rgb(62, 65, 71);
    assert_eq!(modulate(base, true, false, false), base);
    assert_eq!(modulate(base, true, false, true), Color::rgb(84, 87, 93));
    assert_eq!(modulate(base, true, true, true), Color::rgb(114, 117, 123));
    assert_eq!(modulate(base, true, true, false), Color::rgb(114, 117, 123));
}

#[test]
fn an_inoperable_control_ignores_the_pointer() {
    let base = Color::rgba(230, 55, 61, 200);
    assert_eq!(modulate(base, false, true, true), base);
}
