use revision::ui_kit::kit::{
    counter_text, cursor_for, drag_field, menu_choice, operable, release, role_of, set_field,
    step_field, Anchor, Applied, Attention, Class, Control, CounterEdit, Field, RecordMode, Release,
    WidgetId,
};
use revision::ui_mech::a11y::Role;
use revision::ui_mech::input::CursorShape;
use revision::ui_kit::pane::{Axis, BarPolicy, Part};
use revision::ui_mech::input::{KeyCode, Named, TargetId};

/// The transport's counter: bars, beats, ticks.
fn counter() -> Vec<Field> {
    vec![
        Field::new(12, 3, 1, 999),
        Field::new(3, 2, 1, 16),
        Field::new(0, 4, 0, 5039),
    ]
}

const COUNTER: WidgetId = WidgetId(20);

fn enter() -> KeyCode {
    KeyCode::Named(Named::Enter)
}

/// Click the beat field of the counter.
fn editing_beats(fields: &mut Vec<Field>) -> CounterEdit {
    let mut e = CounterEdit::new();
    assert_eq!(e.press(COUNTER, Some(1), fields), None);
    e
}

fn changed(index: usize, value: i64) -> Option<Applied> {
    Some(Applied { id: COUNTER, index, value, changed: true })
}

#[test]
fn a_counter_field_is_zero_padded() {
    let field = counter();
    assert_eq!(field[0].text(), "012");
    assert_eq!(field[2].text(), "0000");
}

#[test]
fn a_negative_value_keeps_its_sign_outside_the_padding() {
    assert_eq!(Field::new(-5, 3, -10, 10).text(), "0-5");
    assert_eq!(Field::new(12345, 3, 0, 99999).text(), "12345");
    assert_eq!(Field::new(0, 0, 0, 9).text(), "0");
}

#[test]
fn the_counter_reads_field_by_field() {
    assert_eq!(counter_text(&counter()), "012|03|0000");
    assert_eq!(counter_text(&[]), "");
    assert_eq!(counter_text(&[Field::new(7, 2, 0, 99)]), "07");
}

#[test]
fn a_counter_is_addressed_field_by_field() {
    // Dragging the bar field up by four steps.
    let mut field = counter();
    assert_eq!(drag_field(&mut field, 0, 12, 4), Some(16));
    assert_eq!(field[0].value, 16);
    assert_eq!(field[1].value, 3);
}

#[test]
fn a_counter_field_cannot_be_dragged_out_of_range() {
    let mut field = counter();
    assert_eq!(drag_field(&mut field, 0, 12, 1015), Some(999));
    assert_eq!(drag_field(&mut field, 0, 12, 2015), None, "reported a change at the limit");
    assert_eq!(field[0].value, 999);
    assert_eq!(drag_field(&mut field, 0, 12, -5000), Some(1));
    assert_eq!(drag_field(&mut field, 7, 12, 1), None);
}

#[test]
fn a_wheel_notch_steps_a_counter_field_by_one() {
    let mut field = counter();
    assert_eq!(step_field(&mut field, 1, true), Some(4));
    assert_eq!(step_field(&mut field, 1, false), Some(3));
    let mut low = vec![Field::new(1, 2, 1, 16)];
    assert_eq!(step_field(&mut low, 0, false), None);
    assert_eq!(step_field(&mut low, 3, true), None);
}

#[test]
fn setting_from_the_model_clamps() {
    let mut field = counter();
    assert!(set_field(&mut field, 1, 40));
    assert_eq!(field[1].value, 16);
    assert!(!set_field(&mut field, 1, 16));
    assert!(!set_field(&mut field, 9, 1));
}

#[test]
fn typing_replaces_a_field_and_commits_on_enter() {
    let mut field = counter();
    let mut e = editing_beats(&mut field);
    assert!(e.field_focused(COUNTER, 1), "the field did not take focus");
    assert_eq!(e.typed(Some(2), "1"), Some(COUNTER));
    assert_eq!(e.typed(Some(2), "2"), Some(COUNTER));
    assert_eq!(field[1].value, 3, "the value changed before the edit committed");
    assert_eq!(e.field_text(COUNTER, 1, &field[1]), (String::from("12"), true));
    assert_eq!(e.key(&enter(), &mut field), (changed(1, 12), false));
    assert_eq!(field[1].value, 12);
    assert_eq!(e.focus, None, "focus survived the commit");
}

#[test]
fn a_partial_edit_shows_underscores() {
    let mut field = counter();
    let mut e = editing_beats(&mut field);
    e.typed(Some(2), "7");
    assert_eq!(e.field_text(COUNTER, 1, &field[1]), (String::from("_7"), true));
    // Other fields show their values.
    assert_eq!(e.field_text(COUNTER, 0, &field[0]), (String::from("012"), false));
}

#[test]
fn escape_abandons_an_edit_without_touching_the_value() {
    let mut field = counter();
    let mut e = editing_beats(&mut field);
    e.typed(Some(2), "9");
    assert_eq!(e.key(&KeyCode::Named(Named::Escape), &mut field), (None, true));
    assert_eq!(field[1].value, 3, "a cancelled edit changed the value");
    assert_eq!(e.focus, None);
    assert_eq!(e.edit, None);
}

#[test]
fn a_typed_value_out_of_range_clamps_rather_than_being_refused() {
    let mut field = counter();
    let mut e = editing_beats(&mut field);
    e.typed(Some(2), "99");
    assert_eq!(e.key(&enter(), &mut field), (changed(1, 16), false));
}

#[test]
fn typing_is_limited_to_the_field_width() {
    let mut field = counter();
    let mut e = editing_beats(&mut field);
    e.typed(Some(2), "1");
    e.typed(Some(2), "2");
    e.typed(Some(2), "3");
    assert_eq!(e.key(&enter(), &mut field), (changed(1, 12), false));
}

#[test]
fn tab_commits_and_moves_to_the_next_field() {
    let mut field = counter();
    let mut e = CounterEdit::new();
    e.press(COUNTER, Some(0), &mut field);
    e.typed(Some(3), "7");
    assert_eq!(e.key(&KeyCode::Named(Named::Tab), &mut field), (changed(0, 7), true));
    assert_eq!(e.focus, Some((COUNTER, 1)));
    assert_eq!(e.edit, None);
    e.typed(Some(2), "5");
    assert_eq!(e.key(&enter(), &mut field), (changed(1, 5), false));
}

#[test]
fn tab_wraps_from_the_last_field() {
    let mut field = counter();
    let mut e = CounterEdit::new();
    e.press(COUNTER, Some(2), &mut field);
    assert_eq!(e.key(&KeyCode::Named(Named::Tab), &mut field), (None, true));
    assert_eq!(e.focus, Some((COUNTER, 0)));
}

#[test]
fn only_digits_are_accepted() {
    let mut field = counter();
    let mut e = editing_beats(&mut field);
    e.typed(Some(2), "a1b2");
    assert_eq!(e.key(&enter(), &mut field), (changed(1, 12), false));
}

#[test]
fn backspace_corrects_the_buffer() {
    let mut field = counter();
    let mut e = editing_beats(&mut field);
    // Nothing typed yet: nothing to correct, nothing to repaint.
    assert_eq!(e.key(&KeyCode::Named(Named::Backspace), &mut field), (None, false));
    e.typed(Some(2), "14");
    assert_eq!(e.key(&KeyCode::Named(Named::Backspace), &mut field), (None, true));
    assert_eq!(e.edit, Some(String::from("1")));
    assert_eq!(e.key(&enter(), &mut field), (Some(Applied { id: COUNTER, index: 1, value: 1, changed: true }), false));
}

#[test]
fn committing_the_same_value_reports_no_change() {
    let mut field = counter();
    let mut e = editing_beats(&mut field);
    e.typed(Some(2), "3");
    assert_eq!(
        e.key(&enter(), &mut field),
        (Some(Applied { id: COUNTER, index: 1, value: 3, changed: false }), false)
    );
}

#[test]
fn enter_with_nothing_typed_commits_nothing() {
    let mut field = counter();
    let mut e = editing_beats(&mut field);
    assert_eq!(e.key(&enter(), &mut field), (None, false));
    assert_eq!(e.focus, None);
}

#[test]
fn keys_and_text_without_focus_do_nothing() {
    let mut field = counter();
    let mut e = CounterEdit::new();
    assert_eq!(e.typed(Some(2), "5"), None);
    assert_eq!(e.key(&enter(), &mut field), (None, false));
    assert_eq!(field, counter());
}

#[test]
fn pressing_another_field_commits_the_edit() {
    let mut field = counter();
    let mut e = editing_beats(&mut field);
    e.typed(Some(2), "8");
    // Pressing the same field again keeps the edit going.
    assert_eq!(e.press(COUNTER, Some(1), &mut field), None);
    assert_eq!(e.edit, Some(String::from("8")));
    assert_eq!(e.press(COUNTER, Some(2), &mut field), changed(1, 8));
    assert_eq!(e.focus, Some((COUNTER, 2)));
    assert_eq!(e.edit, None);
}

#[test]
fn pressing_away_commits_and_drops_focus() {
    let mut field = counter();
    let mut e = editing_beats(&mut field);
    e.typed(Some(2), "10");
    assert_eq!(e.press(WidgetId(99), None, &mut field), changed(1, 10));
    assert_eq!(e.focus, None);
}

#[test]
fn widget_ids_are_the_targets_input_routes_to() {
    assert_eq!(WidgetId(42).target(), TargetId(42));
}

#[test]
fn anchors_name_their_edges() {
    let a = Anchor::top_left();
    assert!(a.left && a.top && !a.right && !a.bottom);
    let a = Anchor::top_wide();
    assert!(a.left && a.top && a.right && !a.bottom);
    let a = Anchor::fill();
    assert!(a.left && a.top && a.right && a.bottom);
}

#[test]
fn bar_policies_reserve_their_axes() {
    assert!(BarPolicy::Both.has(Axis::Horizontal));
    assert!(BarPolicy::Both.has(Axis::Vertical));
    assert!(BarPolicy::Vertical.has(Axis::Vertical));
    assert!(!BarPolicy::Vertical.has(Axis::Horizontal));
    assert!(BarPolicy::Horizontal.has(Axis::Horizontal));
    assert!(!BarPolicy::Neither.has(Axis::Vertical));
    assert!(!BarPolicy::Neither.has(Axis::Horizontal));
}

#[test]
fn every_part_knows_its_axis() {
    assert_eq!(Part::Thumb(Axis::Vertical).axis(), Axis::Vertical);
    assert_eq!(Part::Track(Axis::Horizontal).axis(), Axis::Horizontal);
    assert_eq!(Part::ZoomOut(Axis::Vertical).axis(), Axis::Vertical);
    assert_eq!(Part::ZoomIn(Axis::Horizontal).axis(), Axis::Horizontal);
    assert_eq!(Part::ZoomSlider(Axis::Vertical).axis(), Axis::Vertical);
}

#[test]
fn a_toggle_latches_on_release() {
    assert_eq!(release(WidgetId(2), Some(WidgetId(2)), Control::Toggle { on: false }), Release::Toggled(true));
    assert_eq!(release(WidgetId(2), Some(WidgetId(2)), Control::Toggle { on: true }), Release::Toggled(false));
}

#[test]
fn releasing_off_the_pressed_widget_cancels() {
    assert_eq!(
        release(WidgetId(2), None, Control::Toggle { on: false }),
        Release::Cancelled,
        "an abandoned press reported as a release would fire the action anyway"
    );
    assert_eq!(release(WidgetId(2), Some(WidgetId(3)), Control::Other), Release::Cancelled);
    assert_eq!(release(WidgetId(1), Some(WidgetId(1)), Control::Other), Release::Released);
}

#[test]
fn record_reports_the_state_it_was_pressed_in() {
    let off = Control::Record { mode: RecordMode::Off };
    assert_eq!(release(WidgetId(10), Some(WidgetId(10)), off), Release::RecordPressed(RecordMode::Off));
    let armed = Control::Record { mode: RecordMode::Armed };
    assert_eq!(release(WidgetId(10), Some(WidgetId(10)), armed), Release::RecordPressed(RecordMode::Armed));
}

#[test]
fn an_empty_locator_asks_to_be_filled_and_a_full_one_recalls() {
    let empty = Control::Locator { index: 1, holds: false };
    assert_eq!(release(WidgetId(30), Some(WidgetId(30)), empty), Release::Store(1));
    let full = Control::Locator { index: 2, holds: true };
    assert_eq!(release(WidgetId(31), Some(WidgetId(31)), full), Release::Recalled(2));
}

#[test]
fn a_menu_chooses_only_a_different_item() {
    assert_eq!(menu_choice(0, Some(2)), Some(2));
    assert_eq!(menu_choice(2, Some(2)), None);
    assert_eq!(menu_choice(1, None), None);
}

#[test]
fn targets_name_their_widgets_again() {
    assert_eq!(WidgetId::from_target(Some(WidgetId(77).target())), Some(WidgetId(77)));
    assert_eq!(WidgetId::from_target(Some(TargetId(u64::from(u32::MAX) + 1))), None);
    assert_eq!(WidgetId::from_target(None), None);
}

#[test]
fn retyping_what_a_field_shows_changes_nothing() {
    let mut field = counter();
    let mut e = CounterEdit::new();
    e.press(COUNTER, Some(2), &mut field);
    let shown = field[2].text();
    assert_eq!(shown, "0000");
    e.typed(Some(4), &shown);
    assert_eq!(
        e.key(&enter(), &mut field),
        (Some(Applied { id: COUNTER, index: 2, value: 0, changed: false }), false)
    );
    assert_eq!(field, counter());
}

#[test]
fn the_cursor_says_what_a_control_will_do() {
    assert_eq!(cursor_for(Class::Slider, false), CursorShape::ResizeVertical);
    assert_eq!(cursor_for(Class::Counter, false), CursorShape::ResizeVertical);
    assert_eq!(cursor_for(Class::Shuttle, false), CursorShape::ResizeHorizontal);
    assert_eq!(cursor_for(Class::PopUp, false), CursorShape::Hand);
    assert_eq!(cursor_for(Class::Button, false), CursorShape::Hand);
    assert_eq!(cursor_for(Class::Panel, false), CursorShape::Default);
    assert_eq!(cursor_for(Class::Readout, false), CursorShape::Default);
}

#[test]
fn an_inert_control_offers_no_cursor() {
    assert_eq!(cursor_for(Class::Slider, true), CursorShape::Default);
    assert_eq!(cursor_for(Class::Toggle, true), CursorShape::Default);
}

#[test]
fn only_operable_widgets_take_input() {
    assert!(operable(Class::Button, false));
    assert!(operable(Class::Shuttle, false));
    assert!(!operable(Class::Button, true));
    assert!(!operable(Class::Lamp, false));
    assert!(!operable(Class::Readout, false));
    assert!(!operable(Class::Panel, false));
}

#[test]
fn every_widget_answers_with_a_role() {
    assert_eq!(role_of(Class::Panel), Role::Group);
    assert_eq!(role_of(Class::Toggle), Role::Toggle);
    assert_eq!(role_of(Class::Record), Role::Toggle);
    assert_eq!(role_of(Class::Counter), Role::Field);
    assert_eq!(role_of(Class::Locator), Role::Button);
    assert_eq!(role_of(Class::Lamp), Role::Label);
    assert_eq!(role_of(Class::Shuttle), Role::Slider);
    assert_eq!(role_of(Class::PopUp), Role::PopUp);
}

#[test]
fn a_pressed_control_tracks_the_pointer() {
    let mut a = Attention::new();
    assert_eq!(a.press(Some(WidgetId(1))), vec![WidgetId(1)]);
    assert!(a.press_shown(WidgetId(1)), "a press did not show");
    assert_eq!(a.track(false), Some(WidgetId(1)));
    assert!(!a.press_shown(WidgetId(1)), "it stayed lit off the control");
    assert_eq!(a.track(false), None);
    assert_eq!(a.track(true), Some(WidgetId(1)));
    assert!(a.press_shown(WidgetId(1)), "it did not light again on return");
    assert_eq!(a.release(), Some(WidgetId(1)));
    assert!(!a.press_shown(WidgetId(1)));
    assert_eq!(a.track(false), None);
}

#[test]
fn activating_a_control_erases_another_ones_attention_state() {
    let mut a = Attention::new();
    assert_eq!(a.hover_over(Some((WidgetId(20), 1))), vec![WidgetId(20)]);
    assert_eq!(a.hover_field, Some((WidgetId(20), 1)));
    assert_eq!(a.press(Some(WidgetId(10))), vec![WidgetId(20), WidgetId(10)]);
    assert_eq!(
        a.hover_field, None,
        "the counter kept showing a wheel target while another control was pressed"
    );
    // Pressing the counter itself keeps its field highlight.
    a.hover_over(Some((WidgetId(20), 2)));
    assert_eq!(a.press(Some(WidgetId(20))), vec![WidgetId(20)]);
    assert_eq!(a.hover_field, Some((WidgetId(20), 2)));
}

#[test]
fn hover_leaves_before_it_enters_and_leaving_clears_the_field() {
    let mut a = Attention::new();
    assert_eq!(a.enter(Some(WidgetId(3))), vec![WidgetId(3)]);
    assert_eq!(a.enter(Some(WidgetId(4))), vec![WidgetId(3), WidgetId(4)]);
    a.hover_over(Some((WidgetId(4), 0)));
    assert_eq!(a.hover_over(Some((WidgetId(4), 0))), vec![]);
    assert_eq!(a.leave(), vec![WidgetId(4), WidgetId(4)]);
    assert_eq!(a.hover, None);
    assert_eq!(a.hover_field, None);
}

#[test]
fn an_open_menu_tracks_its_provisional_item() {
    let mut a = Attention::new();
    assert!(!a.hover_item(Some(1)), "no menu is open");
    a.press(Some(WidgetId(50)));
    a.open_menu(WidgetId(50));
    assert!(a.hover_item(Some(1)));
    assert!(!a.hover_item(Some(1)));
    assert_eq!(a.item, Some(1));
    assert_eq!(a.close_menu(), Some(WidgetId(50)));
    assert_eq!((a.open, a.item, a.press), (None, None, None));
}
