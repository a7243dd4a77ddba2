use revision::ui_mech::input::{Reason, TargetId};
use revision::ui_mech::route::{char_is_control, text_is_composed, Delivery, Message, Router};
use revision::ui_mech::window::{WindowId, WindowIds};

fn two_windows() -> (WindowId, WindowId) {
    let mut ids = WindowIds::new();
    let a = ids.open_window();
    let b = ids.open_window();
    (a, b)
}

fn to(window: WindowId, target: Option<u64>, message: Message) -> Delivery {
    Delivery { window, target: target.map(TargetId), message }
}

#[test]
fn window_ids_are_never_reused() {
    let mut ids = WindowIds::new();
    let a = ids.open_window();
    let b = ids.open_window();
    let c = ids.open_window();
    assert_ne!(a, b);
    assert_ne!(b, c);
    assert_ne!(a, c);
    assert!(a < b && b < c);
}

#[test]
fn a_press_binds_its_target_until_release() {
    let (w, _) = two_windows();
    let mut r = Router::new();
    let down = r.pointer_pressed(w, Some(TargetId(1)));
    assert_eq!(down, to(w, Some(1), Message::Down));
    assert_eq!(r.capture(), Some((w, Some(TargetId(1)))));
    // The pointer wanders over another widget: the pressed one still hears it.
    assert!(!r.wants_hit(false));
    let moved = r.pointer_moved(w, false, Some(TargetId(2)));
    assert_eq!(moved, vec![to(w, Some(1), Message::Move)]);
    let up = r.pointer_released(w);
    assert_eq!(up, to(w, Some(1), Message::Up));
    assert_eq!(r.capture(), None);
    assert!(r.wants_hit(false));
}

#[test]
fn a_release_without_a_press_goes_to_the_window() {
    let (w, _) = two_windows();
    let mut r = Router::new();
    assert_eq!(r.pointer_released(w), to(w, None, Message::Up));
}

#[test]
fn hover_crossings_leave_before_they_enter() {
    let (w, _) = two_windows();
    let mut r = Router::new();
    assert_eq!(
        r.pointer_moved(w, false, Some(TargetId(1))),
        vec![to(w, Some(1), Message::Enter), to(w, Some(1), Message::Move)]
    );
    assert_eq!(
        r.pointer_moved(w, false, Some(TargetId(2))),
        vec![
            to(w, Some(1), Message::Leave),
            to(w, Some(2), Message::Enter),
            to(w, Some(2), Message::Move)
        ]
    );
    // Staying over the same widget is motion only.
    assert_eq!(r.pointer_moved(w, false, Some(TargetId(2))), vec![to(w, Some(2), Message::Move)]);
    assert_eq!(r.hover(), Some((w, Some(TargetId(2)))));
    assert_eq!(r.pointer_left(), vec![to(w, Some(2), Message::Leave)]);
    assert_eq!(r.hover(), None);
    assert_eq!(r.pointer_left(), vec![]);
}

#[test]
fn moving_between_windows_leaves_the_first() {
    let (a, b) = two_windows();
    let mut r = Router::new();
    r.pointer_moved(a, false, Some(TargetId(5)));
    assert_eq!(
        r.pointer_moved(b, false, Some(TargetId(5))),
        vec![
            to(a, Some(5), Message::Leave),
            to(b, Some(5), Message::Enter),
            to(b, Some(5), Message::Move)
        ]
    );
}

#[test]
fn a_relative_drag_consumes_motion() {
    let (w, _) = two_windows();
    let mut r = Router::new();
    r.pointer_pressed(w, Some(TargetId(3)));
    assert_eq!(r.pointer_moved(w, true, Some(TargetId(4))), vec![]);
    assert!(!r.wants_hit(true));
    assert_eq!(r.pointer_delta(w), to(w, Some(3), Message::Delta));
    r.pointer_released(w);
    assert_eq!(r.pointer_delta(w), to(w, None, Message::Delta));
}

#[test]
fn pressing_a_control_does_not_move_focus() {
    let (w, _) = two_windows();
    let mut r = Router::new();
    r.set_focus(Some((w, TargetId(9))), Reason::User);
    r.pointer_moved(w, false, Some(TargetId(1)));
    r.pointer_pressed(w, Some(TargetId(1)));
    r.pointer_released(w);
    r.pointer_left();
    assert_eq!(r.focus(), Some((w, TargetId(9))));
    r.set_focus(None, Reason::Programmatic);
    assert_eq!(r.focus(), None);
}

#[test]
fn the_wheel_goes_to_what_the_pointer_is_over() {
    let (a, b) = two_windows();
    let mut r = Router::new();
    r.set_focus(Some((a, TargetId(9))), Reason::User);
    r.pointer_moved(a, false, Some(TargetId(2)));
    assert_eq!(r.pointer_wheel(a), to(a, Some(2), Message::Wheel));
    // Over another window, nothing hovered there.
    assert_eq!(r.pointer_wheel(b), to(b, None, Message::Wheel));
}

#[test]
fn keys_and_text_go_to_focus_on_two_channels() {
    let (a, b) = two_windows();
    let mut r = Router::new();
    r.set_focus(Some((a, TargetId(7))), Reason::User);
    assert_eq!(
        r.key(a, true, true, Some("4")),
        vec![to(a, Some(7), Message::Key), to(a, Some(7), Message::Text)]
    );
    // A release carries no text.
    assert_eq!(r.key(a, true, false, Some("4")), vec![to(a, Some(7), Message::Key)]);
    // A key without a code may still compose text.
    assert_eq!(r.key(a, false, true, Some("é")), vec![to(a, Some(7), Message::Text)]);
    // Control characters are keys, never text.
    assert_eq!(r.key(a, true, true, Some("\u{8}")), vec![to(a, Some(7), Message::Key)]);
    assert_eq!(r.key(a, true, true, Some("\r")), vec![to(a, Some(7), Message::Key)]);
    assert_eq!(r.key(a, true, true, None), vec![to(a, Some(7), Message::Key)]);
    // In a window without focus, the event goes to the window itself.
    assert_eq!(r.key(b, true, true, Some("x")), vec![to(b, None, Message::Key), to(b, None, Message::Text)]);
}

#[test]
fn control_characters_are_recognised() {
    assert!(char_is_control('\u{0}'));
    assert!(char_is_control('\u{1b}'));
    assert!(char_is_control('\u{7f}'));
    assert!(char_is_control('\u{85}'));
    assert!(!char_is_control(' '));
    assert!(!char_is_control('a'));
    assert!(!char_is_control('\u{a0}'));
    assert!(text_is_composed("abc"));
    assert!(text_is_composed(""));
    assert!(!text_is_composed("a\tb"));
    assert!(!text_is_composed("\u{7f}"));
}
