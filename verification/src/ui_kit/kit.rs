//! Widget identity and the counter: a multi-field numeric display whose fields
//! are addressed one at a time — clicked, then dragged, wheeled or typed.
//!
//! Typing goes into a buffer, never into the value: the field shows what is
//! being typed until the edit is committed, and an abandoned edit leaves the
//! value untouched. Out-of-range input clamps rather than being refused.
use vstd::prelude::*;
use vstd::string::StrSliceExecFns;

use crate::numeral::{
    decimal, decimal_text, lemma_zero_padding_reads_back, pad_left, pad_text_left, parse_i64, parsed_i64,
    push_char,
};
use crate::ui_mech::a11y::Role;
use crate::ui_mech::input::{CursorShape, KeyCode, Named, TargetId};

verus! {

/// Stable across frames and across relayouts — the same value the mechanism
/// routes input to and an assistive technology addresses.
#[derive(Debug, Clone, Copy, PartialEq, Eq, Hash, PartialOrd, Ord, Structural)]
pub struct WidgetId(pub u32);

impl WidgetId {
    /// The target the mechanism routes to for this widget.
    pub fn target(self) -> (t: TargetId)
        ensures
            t == TargetId(self.0 as u64),
    {
        TargetId(self.0 as u64)
    }

    /// The widget a routed target names: none when there is no target, or when
    /// the target is out of a widget id's range.
    pub fn from_target(target: Option<TargetId>) -> (r: Option<WidgetId>)
        ensures
            r == widget_of(target),
    {
        match target {
            Some(t) => if t.0 <= u32::MAX as u64 {
                Some(WidgetId(t.0 as u32))
            } else {
                None
            },
            None => None,
        }
    }
}

/// The widget a routed target names.
pub open spec fn widget_of(target: Option<TargetId>) -> Option<WidgetId> {
    match target {
        Some(t) => if t.0 <= u32::MAX {
            Some(WidgetId(t.0 as u32))
        } else {
            None
        },
        None => None,
    }
}

/// A widget's id survives the trip through the mechanism: the target it is
/// routed as names it again.
pub proof fn lemma_targets_name_their_widgets(id: WidgetId)
    ensures
        widget_of(Some(TargetId(id.0 as u64))) == Some(id),
{
}

/// Which parent edges a widget's own edges follow when the parent resizes.
#[derive(Debug, Clone, Copy, PartialEq, Eq, Default)]
pub struct Anchor {
    pub left: bool,
    pub top: bool,
    pub right: bool,
    pub bottom: bool,
}

impl Anchor {
    /// Keeps its designed offset from the parent's top-left corner.
    pub fn top_left() -> (a: Anchor)
        ensures
            a == (Anchor { left: true, top: true, right: false, bottom: false }),
    {
        Anchor { left: true, top: true, right: false, bottom: false }
    }

    /// Stretches horizontally with its parent.
    pub fn top_wide() -> (a: Anchor)
        ensures
            a == (Anchor { left: true, top: true, right: true, bottom: false }),
    {
        Anchor { left: true, top: true, right: true, bottom: false }
    }

    /// Stretches both ways with its parent.
    pub fn fill() -> (a: Anchor)
        ensures
            a == (Anchor { left: true, top: true, right: true, bottom: true }),
    {
        Anchor { left: true, top: true, right: true, bottom: true }
    }
}

/// What the transport is doing about recording.
#[derive(Debug, Clone, Copy, PartialEq, Eq)]
pub enum RecordMode {
    /// Not recording and not armed.
    Off,
    /// Armed and waiting for the transport. Flashes.
    Armed,
    Recording,
}

/// One field of a counter.
#[derive(Debug, Clone, PartialEq)]
pub struct Field {
    pub value: i64,
    /// Zero-padded to this width, so the display cannot reflow as values change.
    pub digit: u8,
    pub min: i64,
    pub max: i64,
}

/// What a field shows: its value, padded with zeros to its width.
pub open spec fn field_text(f: Field) -> Seq<char> {
    pad_left(decimal(f.value as int), f.digit as nat, '0')
}

/// A counter's reading: its fields' texts joined by `|`.
pub open spec fn counter_reading(fields: Seq<Field>) -> Seq<char>
    decreases fields.len(),
{
    if fields.len() == 0 {
        seq![]
    } else if fields.len() == 1 {
        field_text(fields[0])
    } else {
        counter_reading(fields.drop_last()) + seq!['|'] + field_text(fields.last())
    }
}

/// `v` clamped into `lo..=hi`.
pub open spec fn clamped(v: int, lo: int, hi: int) -> int {
    if v < lo {
        lo
    } else if v > hi {
        hi
    } else {
        v
    }
}

impl Field {
    pub fn new(value: i64, digit: u8, min: i64, max: i64) -> (f: Field)
        ensures
            f == (Field { value, digit, min, max }),
    {
        Field { value, digit, min, max }
    }

    /// The field's text: its value zero-padded to its width.
    pub fn text(&self) -> (r: String)
        ensures
            r@ == field_text(*self),
    {
        let plain = decimal_text(self.value);
        pad_text_left(plain.as_str(), self.digit as usize, '0')
    }
}

/// A counter's reading as text — what a locator stores when it is set.
pub fn counter_text(field: &[Field]) -> (r: String)
    ensures
        r@ == counter_reading(field@),
{
    let mut out = String::new();
    let mut i: usize = 0;
    while i < field.len()
        invariant
            0 <= i <= field@.len(),
            out@ == counter_reading(field@.take(i as int)),
        decreases field@.len() - i,
    {
        proof {
            assert(field@.take(i + 1).drop_last() =~= field@.take(i as int));
        }
        if i > 0 {
            push_char(&mut out, '|');
        }
        let text = field[i].text();
        let mut k: usize = 0;
        let n = text.as_str().unicode_len();
        let ghost before = out@;
        while k < n
            invariant
                0 <= k <= n,
                n == text@.len(),
                out@ == before + text@.take(k as int),
            decreases n - k,
        {
            let c = text.as_str().get_char(k);
            proof {
                assert(text@.take(k + 1) =~= text@.take(k as int).push(c));
            }
            push_char(&mut out, c);
            k += 1;
        }
        proof {
            assert(text@.take(n as int) =~= text@);
            if i == 0 {
                assert(out@ =~= field_text(field@[0]));
                assert(field@.take(1) =~= seq![field@[0]]);
            }
        }
        i += 1;
    }
    proof {
        assert(field@.take(field@.len() as int) =~= field@);
    }
    out
}

/// Step a field by one notch, clamped: up or down one. `None` when the field
/// does not exist or is already at its limit.
pub fn step_field(field: &mut Vec<Field>, index: usize, up: bool) -> (r: Option<i64>)
    requires
        index < old(field)@.len() ==> old(field)@[index as int].min <= old(field)@[index as int].max,
        index < old(field)@.len() && up ==> old(field)@[index as int].value < i64::MAX,
        index < old(field)@.len() && !up ==> old(field)@[index as int].value > i64::MIN,
    ensures
        index >= old(field)@.len() ==> r is None && final(field)@ == old(field)@,
        index < old(field)@.len() ==> ({
            let f = old(field)@[index as int];
            let next = clamped(f.value + if up { 1int } else { -1int }, f.min as int, f.max as int);
            if next == f.value {
                r is None && final(field)@ == old(field)@
            } else {
                r == Some(next as i64) && final(field)@ == old(field)@.update(
                    index as int,
                    Field { value: next as i64, ..f },
                )
            }
        }),
{
    if index >= field.len() {
        return None;
    }
    let f = &field[index];
    let moved = if up {
        f.value + 1
    } else {
        f.value - 1
    };
    let next = if moved < f.min {
        f.min
    } else if moved > f.max {
        f.max
    } else {
        moved
    };
    if next == f.value {
        return None;
    }
    let updated = Field { value: next, digit: f.digit, min: f.min, max: f.max };
    field.set(index, updated);
    Some(next)
}

/// Drag a field: `step` notches from where the drag started, clamped. `None`
/// when the field does not exist or the clamped value is what it already holds.
pub fn drag_field(field: &mut Vec<Field>, index: usize, start_value: i64, step: i64) -> (r: Option<i64>)
    requires
        index < old(field)@.len() ==> old(field)@[index as int].min <= old(field)@[index as int].max,
        i64::MIN <= start_value + step <= i64::MAX,
    ensures
        index >= old(field)@.len() ==> r is None && final(field)@ == old(field)@,
        index < old(field)@.len() ==> ({
            let f = old(field)@[index as int];
            let next = clamped(start_value + step, f.min as int, f.max as int);
            if next == f.value {
                r is None && final(field)@ == old(field)@
            } else {
                r == Some(next as i64) && final(field)@ == old(field)@.update(
                    index as int,
                    Field { value: next as i64, ..f },
                )
            }
        }),
{
    if index >= field.len() {
        return None;
    }
    let f = &field[index];
    let target = start_value + step;
    let next = if target < f.min {
        f.min
    } else if target > f.max {
        f.max
    } else {
        target
    };
    if next == f.value {
        return None;
    }
    let updated = Field { value: next, digit: f.digit, min: f.min, max: f.max };
    field.set(index, updated);
    Some(next)
}

/// Set a field from the model, clamped. Returns whether the value changed.
pub fn set_field(field: &mut Vec<Field>, index: usize, value: i64) -> (changed: bool)
    requires
        index < old(field)@.len() ==> old(field)@[index as int].min <= old(field)@[index as int].max,
    ensures
        index >= old(field)@.len() ==> !changed && final(field)@ == old(field)@,
        index < old(field)@.len() ==> ({
            let f = old(field)@[index as int];
            let next = clamped(value as int, f.min as int, f.max as int);
            &&& changed == (next != f.value)
            &&& final(field)@ == old(field)@.update(index as int, Field { value: next as i64, ..f })
        }),
{
    if index >= field.len() {
        return false;
    }
    let f = &field[index];
    let next = if value < f.min {
        f.min
    } else if value > f.max {
        f.max
    } else {
        value
    };
    let changed = next != f.value;
    let updated = Field { value: next, digit: f.digit, min: f.min, max: f.max };
    field.set(index, updated);
    changed
}


// ── Typing into a counter field ───────────────────────────────────────────────

/// Pop the last character of a `String`, by `String::pop`. Trusted: the
/// contract claims it returns and removes the last character, or returns
/// `None` and leaves an empty string alone, as the standard library
/// documents.
#[verifier::external_body]
fn pop_char(s: &mut String) -> (r: Option<char>)
    ensures
        old(s)@.len() == 0 ==> r is None && final(s)@ == old(s)@,
        old(s)@.len() > 0 ==> r == Some(old(s)@.last()) && final(s)@ == old(s)@.drop_last(),
{
    s.pop()
}

/// `buffer` after typing `text` into a field `digit` characters wide: ASCII
/// digits are appended while there is room; everything else is ignored.
pub open spec fn typed_into(buffer: Seq<char>, text: Seq<char>, digit: nat) -> Seq<char>
    decreases text.len(),
{
    if text.len() == 0 {
        buffer
    } else {
        let before = typed_into(buffer, text.drop_last(), digit);
        let c = text.last();
        if '0' <= c <= '9' && before.len() < digit {
            before.push(c)
        } else {
            before
        }
    }
}

/// A committed edit: the field it landed in, the clamped value it wrote, and
/// whether that value differs from what the field held.
#[derive(Debug, Clone, Copy, PartialEq, Eq)]
pub struct Applied {
    pub id: WidgetId,
    pub index: usize,
    pub value: i64,
    pub changed: bool,
}

/// The counter field being edited, and what has been typed into it.
pub struct CounterEdit {
    /// The counter field being edited, if any: widget and field index.
    pub focus: Option<(WidgetId, usize)>,
    /// Digits typed so far. `None` means the field shows its value; `Some`
    /// means it shows what is being typed.
    pub edit: Option<String>,
}

pub open spec fn buffer_of(edit: Option<String>) -> Option<Seq<char>> {
    match edit {
        Some(s) => Some(s@),
        None => None,
    }
}

/// What committing does to the field being edited: the typed digits, parsed and
/// clamped, become its value. `None` when nothing was typed or it does not parse.
pub open spec fn commit_result(
    focus: Option<(WidgetId, usize)>,
    buffer: Option<Seq<char>>,
    fields: Seq<Field>,
) -> (Seq<Field>, Option<Applied>) {
    match (focus, buffer) {
        (Some((id, index)), Some(typed)) => match parsed_i64(typed) {
            Some(t) => if index < fields.len() {
                let f = fields[index as int];
                let v = clamped(t as int, f.min as int, f.max as int) as i64;
                (
                    fields.update(index as int, Field { value: v, ..f }),
                    Some(Applied { id, index, value: v, changed: v != f.value }),
                )
            } else {
                (fields, None)
            },
            None => (fields, None),
        },
        _ => (fields, None),
    }
}

impl Default for CounterEdit {
    fn default() -> (r: CounterEdit)
        ensures
            r.focus is None,
            r.edit is None,
    {
        CounterEdit { focus: None, edit: None }
    }
}

impl CounterEdit {
    pub fn new() -> (r: CounterEdit)
        ensures
            r.focus is None,
            r.edit is None,
    {
        CounterEdit { focus: None, edit: None }
    }

    /// Is this field the one being edited?
    pub fn field_focused(&self, id: WidgetId, index: usize) -> (r: bool)
        ensures
            r == (self.focus == Some((id, index))),
    {
        match self.focus {
            Some((w, n)) => w.0 == id.0 && n == index,
            None => false,
        }
    }

    /// What a counter field is showing right now: the typed buffer, padded with
    /// `_` to the field's width, while an edit is in progress (and `true`); its
    /// value otherwise (and `false`).
    pub fn field_text(&self, id: WidgetId, index: usize, f: &Field) -> (r: (String, bool))
        ensures
            match (self.focus == Some((id, index)), self.edit) {
                (true, Some(buffer)) => r.0@ == pad_left(buffer@, f.digit as nat, '_') && r.1,
                _ => r.0@ == field_text(*f) && !r.1,
            },
    {
        if self.field_focused(id, index) {
            if let Some(buffer) = &self.edit {
                return (pad_text_left(buffer.as_str(), f.digit as usize, '_'), true);
            }
        }
        (f.text(), false)
    }

    /// Composed text — the second keyboard channel. `digit` is the focused
    /// field's width, `None` when the focus is not on a counter field. Only ASCII
    /// digits are taken, and only while the field has room; nothing is reported
    /// until the edit is committed. Returns the widget to repaint, if any.
    pub fn typed(&mut self, digit: Option<u8>, text: &str) -> (marked: Option<WidgetId>)
        ensures
            final(self).focus == old(self).focus,
            match (old(self).focus, digit) {
                (Some((id, _)), Some(d)) => {
                    &&& marked == Some(id)
                    &&& buffer_of(final(self).edit) == Some(
                        typed_into(
                            match buffer_of(old(self).edit) {
                                Some(b) => b,
                                None => seq![],
                            },
                            text@,
                            d as nat,
                        ),
                    )
                },
                _ => marked is None && buffer_of(final(self).edit) == buffer_of(old(self).edit),
            },
    {
        let (id, _) = match self.focus {
            Some(f) => f,
            None => return None,
        };
        let d = match digit {
            Some(d) => d,
            None => return None,
        };
        let mut buffer = match self.edit.take() {
            Some(b) => b,
            None => String::new(),
        };
        let ghost start = buffer@;
        let n = text.unicode_len();
        let mut i: usize = 0;
        while i < n
            invariant
                0 <= i <= n,
                n == text@.len(),
                buffer@ == typed_into(start, text@.take(i as int), d as nat),
            decreases n - i,
        {
            let c = text.get_char(i);
            proof {
                assert(text@.take(i + 1).drop_last() =~= text@.take(i as int));
            }
            if '0' <= c && c <= '9' && buffer.as_str().unicode_len() < d as usize {
                push_char(&mut buffer, c);
            }
            i += 1;
        }
        proof {
            assert(text@.take(n as int) =~= text@);
        }
        self.edit = Some(buffer);
        Some(id)
    }

    /// Apply the typed digits to the focused field of `fields` (the focused
    /// counter's fields), if anything was typed. Out-of-range input clamps
    /// rather than being refused. The edit buffer is consumed either way.
    pub fn commit(&mut self, fields: &mut Vec<Field>) -> (r: Option<Applied>)
        requires
            match old(self).focus {
                Some((_, index)) => index < old(fields)@.len() ==> old(fields)@[index as int].min
                    <= old(fields)@[index as int].max,
                None => true,
            },
        ensures
            final(self).focus == old(self).focus,
            old(self).focus is Some ==> final(self).edit is None,
            old(self).focus is None ==> buffer_of(final(self).edit) == buffer_of(old(self).edit),
            (final(fields)@, r) == commit_result(old(self).focus, buffer_of(old(self).edit), old(fields)@),
    {
        let (id, index) = match self.focus {
            Some(f) => f,
            None => return None,
        };
        let buffer = match self.edit.take() {
            Some(b) => b,
            None => return None,
        };
        let typed = match parse_i64(buffer.as_str()) {
            Some(t) => t,
            None => return None,
        };
        if index >= fields.len() {
            return None;
        }
        let f = &fields[index];
        let value = if typed < f.min {
            f.min
        } else if typed > f.max {
            f.max
        } else {
            typed
        };
        let changed = value != f.value;
        let updated = Field { value, digit: f.digit, min: f.min, max: f.max };
        fields.set(index, updated);
        Some(Applied { id, index, value, changed })
    }

    /// Raw keys — the first channel: Enter commits, Escape abandons, Backspace
    /// corrects, Tab commits and moves to the next field. `fields` are the
    /// focused counter's fields. Returns what was committed, and whether the
    /// focused widget needs repainting for any other reason.
    pub fn key(&mut self, code: &KeyCode, fields: &mut Vec<Field>) -> (r: (Option<Applied>, bool))
        requires
            match old(self).focus {
                Some((_, index)) => {
                    &&& index < old(fields)@.len() ==> old(fields)@[index as int].min <= old(
                        fields,
                    )@[index as int].max
                    &&& (*code == KeyCode::Named(Named::Tab) ==> index < old(fields)@.len())
                },
                None => true,
            },
        ensures
            old(self).focus is None ==> r == (None::<Applied>, false) && final(fields)@ == old(
                fields,
            )@ && final(self).focus is None && buffer_of(final(self).edit) == buffer_of(old(self).edit),
            old(self).focus matches Some((id, index)) ==> match *code {
                KeyCode::Named(Named::Enter) => {
                    &&& (final(fields)@, r.0) == commit_result(
                        old(self).focus,
                        buffer_of(old(self).edit),
                        old(fields)@,
                    )
                    &&& !r.1
                    &&& final(self).focus is None
                    &&& final(self).edit is None
                },
                KeyCode::Named(Named::Escape) => {
                    &&& r == (None::<Applied>, true)
                    &&& final(fields)@ == old(fields)@
                    &&& final(self).focus is None
                    &&& final(self).edit is None
                },
                KeyCode::Named(Named::Backspace) => {
                    &&& r.0 is None
                    &&& r.1 == old(self).edit is Some
                    &&& final(fields)@ == old(fields)@
                    &&& final(self).focus == old(self).focus
                    &&& buffer_of(final(self).edit) == match buffer_of(old(self).edit) {
                        Some(b) => Some(
                            if b.len() > 0 {
                                b.drop_last()
                            } else {
                                b
                            },
                        ),
                        None => None,
                    }
                },
                KeyCode::Named(Named::Tab) => {
                    &&& (final(fields)@, r.0) == commit_result(
                        old(self).focus,
                        buffer_of(old(self).edit),
                        old(fields)@,
                    )
                    &&& r.1
                    &&& final(self).focus == Some((id, ((index + 1) % (old(fields)@.len() as int)) as usize))
                    &&& final(self).edit is None
                },
                _ => {
                    &&& r == (None::<Applied>, false)
                    &&& final(fields)@ == old(fields)@
                    &&& final(self).focus == old(self).focus
                    &&& buffer_of(final(self).edit) == buffer_of(old(self).edit)
                },
            },
    {
        let (id, index) = match self.focus {
            Some(f) => f,
            None => return (None, false),
        };
        match code {
            KeyCode::Named(Named::Enter) => {
                let out = self.commit(fields);
                self.focus = None;
                (out, false)
            },
            KeyCode::Named(Named::Escape) => {
                self.edit = None;
                self.focus = None;
                (None, true)
            },
            KeyCode::Named(Named::Backspace) => {
                match self.edit.take() {
                    Some(mut buffer) => {
                        pop_char(&mut buffer);
                        self.edit = Some(buffer);
                        (None, true)
                    },
                    None => (None, false),
                }
            },
            KeyCode::Named(Named::Tab) => {
                let out = self.commit(fields);
                let count = fields.len();
                self.focus = Some((id, (index + 1) % count));
                self.edit = None;
                (out, true)
            },
            _ => (None, false),
        }
    }

    /// A press on counter `id`. When it addresses field `addressed` of that
    /// counter, focus moves there — committing whatever was typed into another
    /// field first, and keeping the edit when it is the same field. A press that
    /// addresses no field commits and drops focus. `fields` are the fields of
    /// the counter that was focused before the press.
    pub fn press(&mut self, id: WidgetId, addressed: Option<usize>, fields: &mut Vec<Field>) -> (r: Option<Applied>)
        requires
            match old(self).focus {
                Some((_, index)) => index < old(fields)@.len() ==> old(fields)@[index as int].min
                    <= old(fields)@[index as int].max,
                None => true,
            },
        ensures
            match addressed {
                Some(n) => if old(self).focus == Some((id, n)) {
                    &&& r is None
                    &&& final(fields)@ == old(fields)@
                    &&& final(self).focus == old(self).focus
                    &&& buffer_of(final(self).edit) == buffer_of(old(self).edit)
                } else {
                    &&& (final(fields)@, r) == commit_result(
                        old(self).focus,
                        buffer_of(old(self).edit),
                        old(fields)@,
                    )
                    &&& final(self).focus == Some((id, n))
                    &&& final(self).edit is None
                },
                None => {
                    &&& (final(fields)@, r) == commit_result(
                        old(self).focus,
                        buffer_of(old(self).edit),
                        old(fields)@,
                    )
                    &&& final(self).focus is None
                    &&& old(self).focus is Some ==> final(self).edit is None
                    &&& old(self).focus is None ==> buffer_of(final(self).edit) == buffer_of(
                        old(self).edit,
                    )
                },
            },
    {
        match addressed {
            Some(n) => {
                let same = self.field_focused(id, n);
                let out = if same {
                    None
                } else {
                    self.commit(fields)
                };
                self.focus = Some((id, n));
                if !same {
                    self.edit = None;
                }
                out
            },
            None => {
                let out = self.commit(fields);
                self.focus = None;
                out
            },
        }
    }
}

// ── What kind of widget it is ─────────────────────────────────────────────────

/// A widget's kind, as the rules that do not depend on its state see it.
#[derive(Debug, Clone, Copy, PartialEq, Eq, Structural)]
pub enum Class {
    Panel,
    Label,
    Rule,
    Button,
    Toggle,
    Lamp,
    Readout,
    Record,
    Locator,
    Counter,
    PopUp,
    Slider,
    Shuttle,
}

/// Does this kind accept input at all?
pub open spec fn takes_input(c: Class) -> bool {
    match c {
        Class::Button | Class::Toggle | Class::Record | Class::Locator | Class::Counter
        | Class::PopUp | Class::Slider | Class::Shuttle => true,
        _ => false,
    }
}

/// What an assistive technology is told a widget of this kind is.
pub open spec fn role_spec(c: Class) -> Role {
    match c {
        Class::Panel => Role::Group,
        Class::Label => Role::Label,
        Class::Rule => Role::Group,
        Class::Button => Role::Button,
        Class::Toggle => Role::Toggle,
        Class::Lamp => Role::Label,
        Class::Readout => Role::Field,
        Class::Record => Role::Toggle,
        Class::Locator => Role::Button,
        Class::Counter => Role::Field,
        Class::Slider => Role::Slider,
        Class::PopUp => Role::PopUp,
        Class::Shuttle => Role::Slider,
    }
}

/// The pointer shape over a widget of this kind: what the control will do
/// when operated, and nothing over what cannot be operated.
pub open spec fn cursor_spec(c: Class, inert: bool) -> CursorShape {
    if inert {
        CursorShape::Default
    } else {
        match c {
            Class::Slider | Class::Counter => CursorShape::ResizeVertical,
            Class::Shuttle => CursorShape::ResizeHorizontal,
            Class::Button | Class::Toggle | Class::Record | Class::Locator | Class::PopUp => CursorShape::Hand,
            _ => CursorShape::Default,
        }
    }
}

/// The accessibility role a widget of this kind answers with.
pub fn role_of(c: Class) -> (r: Role)
    ensures
        r == role_spec(c),
{
    match c {
        Class::Panel => Role::Group,
        Class::Label => Role::Label,
        Class::Rule => Role::Group,
        Class::Button => Role::Button,
        Class::Toggle => Role::Toggle,
        Class::Lamp => Role::Label,
        Class::Readout => Role::Field,
        Class::Record => Role::Toggle,
        Class::Locator => Role::Button,
        Class::Counter => Role::Field,
        Class::Slider => Role::Slider,
        Class::PopUp => Role::PopUp,
        Class::Shuttle => Role::Slider,
    }
}

/// Can a widget of this kind be operated now? Only one that takes input, and
/// is not inert: an inert control is present and announced, but refuses.
pub fn operable(c: Class, inert: bool) -> (r: bool)
    ensures
        r == (takes_input(c) && !inert),
{
    let takes = match c {
        Class::Button | Class::Toggle | Class::Record | Class::Locator | Class::Counter
        | Class::PopUp | Class::Slider | Class::Shuttle => true,
        _ => false,
    };
    takes && !inert
}

/// The pointer shape to request over a widget of this kind: a vertical arrow
/// over what drags up and down, a horizontal one over the shuttle, a hand over
/// what is pressed.
pub fn cursor_for(c: Class, inert: bool) -> (r: CursorShape)
    ensures
        r == cursor_spec(c, inert),
{
    if inert {
        return CursorShape::Default;
    }
    match c {
        Class::Slider | Class::Counter => CursorShape::ResizeVertical,
        Class::Shuttle => CursorShape::ResizeHorizontal,
        Class::Button | Class::Toggle | Class::Record | Class::Locator | Class::PopUp => CursorShape::Hand,
        _ => CursorShape::Default,
    }
}

/// The cursor never promises a gesture the control would refuse: a widget
/// offers a shape other than the default exactly when it can be operated.
pub proof fn lemma_only_operable_controls_offer_a_cursor(c: Class, inert: bool)
    ensures
        (cursor_spec(c, inert) != CursorShape::Default) == (takes_input(c) && !inert),
{
}

// ── Where the pointer's attention is ──────────────────────────────────────────

/// The pointer's hold on the widget tree: what it hovers, what it pressed and
/// whether it is still over it, which counter field it is over, and which
/// menu is open with which item under the pointer. Interaction, never design.
#[derive(Debug, Clone, Copy, PartialEq, Eq)]
pub struct Attention {
    pub hover: Option<WidgetId>,
    pub press: Option<WidgetId>,
    /// Is the pointer still over the widget it pressed? Only then does the
    /// widget show as pressed, so the cancel is visible before it happens.
    pub press_inside: bool,
    /// The counter field under the pointer: what the wheel would move.
    pub hover_field: Option<(WidgetId, usize)>,
    /// The pop-up whose list is showing.
    pub open: Option<WidgetId>,
    /// The item of the open list under the pointer: what would be chosen.
    pub item: Option<usize>,
}

/// The widget a field position belongs to.
pub open spec fn field_widget(f: Option<(WidgetId, usize)>) -> Option<WidgetId> {
    match f {
        Some((w, _)) => Some(w),
        None => None,
    }
}

/// `o` as a sequence of zero or one widgets.
pub open spec fn listed(o: Option<WidgetId>) -> Seq<WidgetId> {
    match o {
        Some(w) => seq![w],
        None => seq![],
    }
}

fn same_widget(a: Option<WidgetId>, b: Option<WidgetId>) -> (r: bool)
    ensures
        r == (a == b),
{
    match (a, b) {
        (Some(x), Some(y)) => x.0 == y.0,
        (None, None) => true,
        _ => false,
    }
}

fn same_place(a: Option<(WidgetId, usize)>, b: Option<(WidgetId, usize)>) -> (r: bool)
    ensures
        r == (a == b),
{
    match (a, b) {
        (Some((x, m)), Some((y, n))) => x.0 == y.0 && m == n,
        (None, None) => true,
        _ => false,
    }
}

fn push_listed(out: &mut Vec<WidgetId>, o: Option<WidgetId>)
    ensures
        final(out)@ == old(out)@ + listed(o),
{
    if let Some(w) = o {
        out.push(w);
    }
    proof {
        assert(final(out)@ =~= old(out)@ + listed(o));
    }
}

impl Default for Attention {
    fn default() -> (a: Attention)
        ensures
            a == (Attention {
                hover: None,
                press: None,
                press_inside: false,
                hover_field: None,
                open: None,
                item: None,
            }),
    {
        Attention { hover: None, press: None, press_inside: false, hover_field: None, open: None, item: None }
    }
}

impl Attention {
    /// Nothing hovered, pressed, addressed or open.
    pub fn new() -> (a: Attention)
        ensures
            a == (Attention {
                hover: None,
                press: None,
                press_inside: false,
                hover_field: None,
                open: None,
                item: None,
            }),
    {
        Attention { hover: None, press: None, press_inside: false, hover_field: None, open: None, item: None }
    }

    /// The pointer entered `target`. Returns the widgets to repaint: the one
    /// it left, then the one it entered.
    pub fn enter(&mut self, target: Option<WidgetId>) -> (marks: Vec<WidgetId>)
        ensures
            *final(self) == (Attention { hover: target, ..*old(self) }),
            marks@ == listed(old(self).hover) + listed(target),
    {
        let mut marks = Vec::new();
        push_listed(&mut marks, self.hover);
        self.hover = target;
        push_listed(&mut marks, target);
        marks
    }

    /// The pointer left the window: nothing is hovered and no field is
    /// addressed by it. Returns the widgets to repaint.
    pub fn leave(&mut self) -> (marks: Vec<WidgetId>)
        ensures
            *final(self) == (Attention { hover: None, hover_field: None, ..*old(self) }),
            marks@ == listed(old(self).hover) + listed(field_widget(old(self).hover_field)),
    {
        let mut marks = Vec::new();
        push_listed(&mut marks, self.hover);
        self.hover = None;
        let field = match self.hover_field {
            Some((w, _)) => Some(w),
            None => None,
        };
        push_listed(&mut marks, field);
        self.hover_field = None;
        marks
    }

    /// A button went down on `target`: it is pressed, and shows as pressed.
    /// Attention belongs to one place at a time, so a field highlight on any
    /// other widget is erased. Returns the widgets to repaint: the one whose
    /// highlight was erased, then the one pressed.
    pub fn press(&mut self, target: Option<WidgetId>) -> (marks: Vec<WidgetId>)
        ensures
            final(self).press == target,
            final(self).press_inside,
            final(self).hover == old(self).hover,
            final(self).open == old(self).open,
            final(self).item == old(self).item,
            field_widget(old(self).hover_field) == target ==> final(self).hover_field == old(self).hover_field,
            field_widget(old(self).hover_field) != target ==> final(self).hover_field is None,
            final(self).hover_field is None || field_widget(final(self).hover_field) == target,
            marks@ == (if field_widget(old(self).hover_field) != target {
                listed(field_widget(old(self).hover_field))
            } else {
                seq![]
            }) + listed(target),
    {
        self.press = target;
        self.press_inside = true;
        let mut marks = Vec::new();
        let field = match self.hover_field {
            Some((w, _)) => Some(w),
            None => None,
        };
        if !same_widget(field, target) {
            push_listed(&mut marks, field);
            self.hover_field = None;
        } else {
            proof {
                assert(marks@ =~= seq![]);
            }
        }
        push_listed(&mut marks, target);
        marks
    }

    /// The pointer moved; `inside` says whether it is over the pressed widget.
    /// The press shows only while it is. Returns the pressed widget when its
    /// appearance changed.
    pub fn track(&mut self, inside: bool) -> (changed: Option<WidgetId>)
        ensures
            old(self).press is Some && inside != old(self).press_inside ==> *final(self) == (Attention { press_inside: inside, ..*old(self) }) && changed == old(self).press,
            !(old(self).press is Some && inside != old(self).press_inside) ==> *final(self) == *old(self) && changed is None,
    {
        match self.press {
            Some(pressed) => if inside != self.press_inside {
                self.press_inside = inside;
                Some(pressed)
            } else {
                None
            },
            None => None,
        }
    }

    /// The pointer is over counter field `over`, if any. Returns the widgets
    /// to repaint when the addressed field changed: the one it left, then the
    /// one it is over.
    pub fn hover_over(&mut self, over: Option<(WidgetId, usize)>) -> (marks: Vec<WidgetId>)
        ensures
            *final(self) == (Attention { hover_field: over, ..*old(self) }),
            over == old(self).hover_field ==> marks@ == Seq::<WidgetId>::empty(),
            over != old(self).hover_field ==> marks@ == listed(field_widget(old(self).hover_field))
                + listed(field_widget(over)),
    {
        let mut marks = Vec::new();
        if same_place(over, self.hover_field) {
            proof {
                assert(marks@ =~= Seq::<WidgetId>::empty());
            }
            return marks;
        }
        let before = match self.hover_field {
            Some((w, _)) => Some(w),
            None => None,
        };
        push_listed(&mut marks, before);
        self.hover_field = over;
        let now = match over {
            Some((w, _)) => Some(w),
            None => None,
        };
        push_listed(&mut marks, now);
        marks
    }

    /// Show `id`'s list, with nothing under the pointer yet.
    pub fn open_menu(&mut self, id: WidgetId)
        ensures
            *final(self) == (Attention { open: Some(id), item: None, ..*old(self) }),
    {
        self.open = Some(id);
        self.item = None;
    }

    /// Close the open list, ending the press that was operating it. Returns
    /// the menu that was open.
    pub fn close_menu(&mut self) -> (was: Option<WidgetId>)
        ensures
            was == old(self).open,
            *final(self) == (Attention { open: None, item: None, press: None, ..*old(self) }),
    {
        let was = self.open;
        self.open = None;
        self.item = None;
        self.press = None;
        was
    }

    /// The pointer is over item `over` of the open list, if any. Returns
    /// whether the list must repaint: only when a list is open and the
    /// provisional item changed.
    pub fn hover_item(&mut self, over: Option<usize>) -> (changed: bool)
        ensures
            changed == (old(self).open is Some && over != old(self).item),
            changed ==> *final(self) == (Attention { item: over, ..*old(self) }),
            !changed ==> *final(self) == *old(self),
    {
        if self.open.is_none() {
            return false;
        }
        let differs = match (over, self.item) {
            (Some(a), Some(b)) => a != b,
            (None, None) => false,
            _ => true,
        };
        if differs {
            self.item = over;
        }
        differs
    }

    /// The button came up: the press ends. Returns what was pressed.
    pub fn release(&mut self) -> (was: Option<WidgetId>)
        ensures
            was == old(self).press,
            *final(self) == (Attention { press: None, ..*old(self) }),
    {
        let was = self.press;
        self.press = None;
        was
    }

    /// Does `id` show as pressed? Only while it is pressed and the pointer is
    /// still over it.
    pub fn press_shown(&self, id: WidgetId) -> (r: bool)
        ensures
            r == (self.press == Some(id) && self.press_inside),
    {
        same_widget(self.press, Some(id)) && self.press_inside
    }
}

// ── Releasing a pressed control ───────────────────────────────────────────────

/// A pressed control as its release sees it: what it is, and the state the
/// release reads.
#[derive(Debug, Clone, Copy, PartialEq, Eq)]
pub enum Control {
    /// Latching: `on` is its state before the release.
    Toggle { on: bool },
    /// The transport's record control, in the mode it was pressed in.
    Record { mode: RecordMode },
    /// A numbered locator, and whether it holds a position.
    Locator { index: u8, holds: bool },
    /// Anything else that can be pressed.
    Other,
}

/// What a release reports.
#[derive(Debug, Clone, Copy, PartialEq, Eq)]
pub enum Release {
    /// The release landed off the pressed control: the press is abandoned.
    Cancelled,
    /// A toggle latched into this state.
    Toggled(bool),
    /// The record control was operated in this mode; what that means is the
    /// application's question.
    RecordPressed(RecordMode),
    /// A locator holding a position was chosen.
    Recalled(u8),
    /// An empty locator asks to be filled.
    Store(u8),
    Released,
}

/// What releasing `pressed` over `over` reports.
pub open spec fn release_of(pressed: WidgetId, over: Option<WidgetId>, control: Control) -> Release {
    if over != Some(pressed) {
        Release::Cancelled
    } else {
        match control {
            Control::Toggle { on } => Release::Toggled(!on),
            Control::Record { mode } => Release::RecordPressed(mode),
            Control::Locator { index, holds } => if holds {
                Release::Recalled(index)
            } else {
                Release::Store(index)
            },
            Control::Other => Release::Released,
        }
    }
}

/// A release acts only when it lands on the control that was pressed: dragging
/// off and letting go cancels. A toggle latches to the opposite state; the
/// record control reports the mode it was pressed in and changes nothing; a
/// locator recalls what it holds, or asks to be filled.
pub fn release(pressed: WidgetId, over: Option<WidgetId>, control: Control) -> (r: Release)
    ensures
        r == release_of(pressed, over, control),
{
    let on_pressed = match over {
        Some(w) => w.0 == pressed.0,
        None => false,
    };
    if !on_pressed {
        return Release::Cancelled;
    }
    match control {
        Control::Toggle { on } => Release::Toggled(!on),
        Control::Record { mode } => Release::RecordPressed(mode),
        Control::Locator { index, holds } => if holds {
            Release::Recalled(index)
        } else {
            Release::Store(index)
        },
        Control::Other => Release::Released,
    }
}

/// A menu's choice when the pointer lands on `item` while `current` is chosen:
/// the item, when there is one and it differs from the current choice.
pub fn menu_choice(current: usize, item: Option<usize>) -> (r: Option<usize>)
    ensures
        r == match item {
            Some(n) => if n != current {
                Some(n)
            } else {
                None
            },
            None => None,
        },
{
    match item {
        Some(n) => if n != current {
            Some(n)
        } else {
            None
        },
        None => None,
    }
}

// ── Laws ──────────────────────────────────────────────────────────────────────

/// Typing only ever holds digits, and never more than the field is wide.
pub proof fn lemma_typing_is_digits_within_the_width(buffer: Seq<char>, text: Seq<char>, digit: nat)
    requires
        buffer.len() <= digit,
        forall|i: int| 0 <= i < buffer.len() ==> '0' <= #[trigger] buffer[i] <= '9',
    ensures
        typed_into(buffer, text, digit).len() <= digit,
        forall|i: int|
            0 <= i < typed_into(buffer, text, digit).len() ==> '0' <= #[trigger] typed_into(
                buffer,
                text,
                digit,
            )[i] <= '9',
    decreases text.len(),
{
    if text.len() > 0 {
        lemma_typing_is_digits_within_the_width(buffer, text.drop_last(), digit);
        let before = typed_into(buffer, text.drop_last(), digit);
        let after = typed_into(buffer, text, digit);
        assert forall|i: int| 0 <= i < after.len() implies '0' <= #[trigger] after[i] <= '9' by {
            if i < before.len() {
                assert(after[i] == before[i]);
            }
        }
    }
}

/// A committed value always lies within its field's range — out-of-range input
/// clamps rather than being refused — and no other field is touched.
pub proof fn lemma_a_commit_stays_in_range(
    focus: Option<(WidgetId, usize)>,
    buffer: Option<Seq<char>>,
    fields: Seq<Field>,
)
    requires
        forall|i: int| 0 <= i < fields.len() ==> (#[trigger] fields[i]).min <= fields[i].max,
    ensures
        ({
            let (after, applied) = commit_result(focus, buffer, fields);
            &&& after.len() == fields.len()
            &&& forall|i: int| 0 <= i < after.len() ==> (#[trigger] after[i]).min <= after[i].value
                <= after[i].max || after[i] == fields[i]
            &&& applied matches Some(a) ==> (forall|i: int| 0 <= i < after.len() && i != a.index ==> #[trigger] after[i] == fields[i])
            &&& applied is None ==> after == fields
        }),
{
}

/// A counter field shows its value: zero-padded to at least its width, and
/// reading back as the value whenever the value is not negative.
pub proof fn lemma_a_field_shows_its_value(f: Field)
    requires
        f.value >= 0,
    ensures
        field_text(f).len() >= f.digit,
        parsed_i64(field_text(f)) == Some(f.value),
{
    lemma_zero_padding_reads_back(f.value, f.digit as nat);
}

/// Typing back what a field shows and committing it changes nothing: the
/// commit lands on the same value and reports no change.
pub proof fn lemma_retyping_a_field_changes_nothing(id: WidgetId, index: usize, fields: Seq<Field>)
    requires
        index < fields.len(),
        0 <= fields[index as int].value,
        fields[index as int].min <= fields[index as int].value <= fields[index as int].max,
    ensures
        commit_result(Some((id, index)), Some(field_text(fields[index as int])), fields) == (
            fields,
            Some(Applied { id, index, value: fields[index as int].value, changed: false }),
        ),
{
    let f = fields[index as int];
    lemma_a_field_shows_its_value(f);
    assert(clamped(f.value as int, f.min as int, f.max as int) == f.value);
    assert(fields.update(index as int, Field { value: f.value, ..f }) =~= fields);
}

/// Out-of-range input clamps rather than being refused: whenever the typed
/// text is a number `t` and the focused field exists, committing always
/// lands a value — `t` itself when it lies in the field's range, the minimum
/// when `t` is below it, the maximum when above — writes it into that field,
/// and reports it, with `changed` exactly when the field held another value.
pub proof fn lemma_out_of_range_input_clamps(
    id: WidgetId,
    index: usize,
    typed: Seq<char>,
    fields: Seq<Field>,
    t: i64,
)
    requires
        parsed_i64(typed) == Some(t),
        index < fields.len(),
        fields[index as int].min <= fields[index as int].max,
    ensures
        ({
            let f = fields[index as int];
            let (after, applied) = commit_result(Some((id, index)), Some(typed), fields);
            &&& applied is Some
            &&& applied->0.id == id
            &&& applied->0.index == index
            &&& (t < f.min ==> applied->0.value == f.min)
            &&& (t > f.max ==> applied->0.value == f.max)
            &&& (f.min <= t <= f.max ==> applied->0.value == t)
            &&& applied->0.changed == (applied->0.value != f.value)
            &&& after.len() == fields.len()
            &&& after[index as int].value == applied->0.value
            &&& after[index as int].min == f.min
            &&& after[index as int].max == f.max
            &&& after[index as int].digit == f.digit
            &&& forall|k: int| 0 <= k < fields.len() && k != index ==> #[trigger] after[k] == fields[k]
        }),
{
}

/// The input controls take input: a class whose role promises an action — a
/// button, a toggle, a slider or a menu — can be operated, and every class
/// that can be operated is announced with a role that can be acted on (or a
/// field that can be set). Passive classes are announced as groups, labels
/// or read-only fields.
pub proof fn lemma_roles_announce_what_takes_input(c: Class)
    ensures
        (role_spec(c) == Role::Button || role_spec(c) == Role::Toggle || role_spec(c) == Role::Slider
            || role_spec(c) == Role::PopUp) ==> takes_input(c),
        takes_input(c) ==> (role_spec(c) == Role::Button || role_spec(c) == Role::Toggle
            || role_spec(c) == Role::Field || role_spec(c) == Role::Slider || role_spec(c)
            == Role::PopUp),
        !takes_input(c) ==> (role_spec(c) == Role::Group || role_spec(c) == Role::Label
            || role_spec(c) == Role::Field),
{
}

/// Exactly the eight input controls take input — buttons, toggles, the
/// record control, locators, counters, pop-ups, sliders and shuttles — and a
/// widget of one of them can be operated unless it is inert.
pub proof fn lemma_the_controls_take_input(c: Class, inert: bool)
    ensures
        takes_input(c) <==> (c == Class::Button || c == Class::Toggle || c == Class::Record || c
            == Class::Locator || c == Class::Counter || c == Class::PopUp || c == Class::Slider || c
            == Class::Shuttle),
        (takes_input(c) && !inert) <==> (c != Class::Panel && c != Class::Label && c != Class::Rule
            && c != Class::Lamp && c != Class::Readout && !inert),
{
}

/// A plain button is announced as a button, a latching control as a toggle,
/// the continuous controls as sliders, and a pop-up as a pop-up.
pub proof fn lemma_controls_are_announced_as_what_they_are(c: Class)
    ensures
        c == Class::Button ==> role_spec(c) == Role::Button,
        (c == Class::Toggle || c == Class::Record) ==> role_spec(c) == Role::Toggle,
        (c == Class::Slider || c == Class::Shuttle) ==> role_spec(c) == Role::Slider,
        c == Class::PopUp ==> role_spec(c) == Role::PopUp,
        (c == Class::Counter || c == Class::Readout) ==> role_spec(c) == Role::Field,
{
}

} // verus!
