//! Input routing: platform events in, contract events out.
//!
//! The rules enforced here:
//!
//! - a press binds its target until release, wherever the pointer goes;
//! - the wheel targets what the pointer is over, not what holds focus;
//! - pressing a control does **not** move focus;
//! - raw keys and composed text are two channels, and control characters are
//!   keys, never text.
//!
//! The router decides *who* receives an event; the caller builds the event
//! itself and hands it over.
use vstd::prelude::*;
use vstd::string::StrSliceExecFns;

use crate::ui_mech::input::{Reason, TargetId};
use crate::ui_mech::window::WindowId;

verus! {

/// Which message a delivery carries.
#[derive(Debug, Clone, Copy, PartialEq, Eq, Structural)]
pub enum Message {
    Down,
    Move,
    Up,
    Wheel,
    Enter,
    Leave,
    Delta,
    Key,
    Text,
}

/// One routed event: the window, the target within it, and the message.
#[derive(Debug, Clone, Copy, PartialEq, Eq, Structural)]
pub struct Delivery {
    pub window: WindowId,
    pub target: Option<TargetId>,
    pub message: Message,
}

pub open spec fn delivery(window: WindowId, target: Option<TargetId>, message: Message) -> Delivery {
    Delivery { window, target, message }
}

/// The routing state: who has captured the pointer, what it hovers, and who
/// holds keyboard focus.
pub struct RouteState {
    pub capture: Option<(WindowId, Option<TargetId>)>,
    pub hover: Option<(WindowId, Option<TargetId>)>,
    pub focus: Option<(WindowId, TargetId)>,
}

/// Routes input. Holds the capture, hover and focus the mechanism owns.
pub struct Router {
    capture: Option<(WindowId, Option<TargetId>)>,
    hover: Option<(WindowId, Option<TargetId>)>,
    focus: Option<(WindowId, TargetId)>,
}

impl View for Router {
    type V = RouteState;

    closed spec fn view(&self) -> RouteState {
        RouteState { capture: self.capture, hover: self.hover, focus: self.focus }
    }
}

// ── What each input does, as state and deliveries ──────────────────────────────

/// The pointer moved over window `id`, where the host's hit test found `hit`.
pub open spec fn after_move(s: RouteState, id: WindowId, dragging: bool, hit: Option<TargetId>) -> (
    RouteState,
    Seq<Delivery>,
) {
    if dragging {
        // A relative drag consumes ordinary motion.
        (s, seq![])
    } else if let Some((window, target)) = s.capture {
        // Capture beats hit testing.
        (s, seq![delivery(window, target, Message::Move)])
    } else {
        let over = Some((id, hit));
        let changed = s.hover != over;
        let leave = match s.hover {
            Some((w, t)) => seq![delivery(w, t, Message::Leave)],
            None => seq![],
        };
        let crossing = if changed {
            leave.push(delivery(id, hit, Message::Enter))
        } else {
            seq![]
        };
        (RouteState { hover: over, ..s }, crossing.push(delivery(id, hit, Message::Move)))
    }
}

/// The pointer left the window.
pub open spec fn after_leave(s: RouteState) -> (RouteState, Seq<Delivery>) {
    match s.hover {
        Some((w, t)) => (RouteState { hover: None, ..s }, seq![delivery(w, t, Message::Leave)]),
        None => (s, seq![]),
    }
}

/// A button went down over window `id`, on `hit`.
pub open spec fn after_press(s: RouteState, id: WindowId, hit: Option<TargetId>) -> (
    RouteState,
    Delivery,
) {
    (RouteState { capture: Some((id, hit)), ..s }, delivery(id, hit, Message::Down))
}

/// A button came up over window `id`.
pub open spec fn after_release(s: RouteState, id: WindowId) -> (RouteState, Delivery) {
    let (w, t) = match s.capture {
        Some(c) => c,
        None => (id, None),
    };
    (RouteState { capture: None, ..s }, delivery(w, t, Message::Up))
}

/// Where a wheel notch over window `id` goes: what the pointer is over there.
pub open spec fn wheel_target(s: RouteState, id: WindowId) -> Option<TargetId> {
    match s.hover {
        Some((w, t)) => if w == id {
            t
        } else {
            None
        },
        None => None,
    }
}

/// Where a key in window `id` goes: the focused target, if it is in that window.
pub open spec fn key_target(s: RouteState, id: WindowId) -> Option<TargetId> {
    match s.focus {
        Some((w, t)) => if w == id {
            Some(t)
        } else {
            None
        },
        None => None,
    }
}

/// Rust's `char::is_control`: the general category Cc.
pub open spec fn is_control(c: char) -> bool {
    c <= '\u{1f}' || ('\u{7f}' <= c && c <= '\u{9f}')
}

/// Text is composed text only when it holds no control character.
pub open spec fn is_text(s: Seq<char>) -> bool {
    forall|i: int| 0 <= i < s.len() ==> !is_control(#[trigger] s[i])
}

/// The deliveries a key event in window `id` makes: the key itself when it has a
/// code, and its text — on press, when it carries text that is not control
/// characters.
pub open spec fn key_deliveries(
    s: RouteState,
    id: WindowId,
    has_code: bool,
    pressed: bool,
    text: Option<Seq<char>>,
) -> Seq<Delivery> {
    let target = key_target(s, id);
    let key = if has_code {
        seq![delivery(id, target, Message::Key)]
    } else {
        seq![]
    };
    match text {
        Some(t) => if pressed && is_text(t) {
            key.push(delivery(id, target, Message::Text))
        } else {
            key
        },
        None => key,
    }
}

fn same_place(a: Option<(WindowId, Option<TargetId>)>, b: Option<(WindowId, Option<TargetId>)>) -> (r: bool)
    ensures
        r == (a == b),
{
    match (a, b) {
        (None, None) => true,
        (Some((wa, ta)), Some((wb, tb))) => wa.0 == wb.0 && match (ta, tb) {
            (None, None) => true,
            (Some(x), Some(y)) => x.0 == y.0,
            _ => false,
        },
        _ => false,
    }
}

/// Does `c` have Rust's `char::is_control` property?
pub fn char_is_control(c: char) -> (r: bool)
    ensures
        r == is_control(c),
{
    c <= '\u{1f}' || ('\u{7f}' <= c && c <= '\u{9f}')
}

/// Is `text` composed text, i.e. free of control characters?
pub fn text_is_composed(text: &str) -> (r: bool)
    ensures
        r == is_text(text@),
{
    let n = text.unicode_len();
    let mut i: usize = 0;
    while i < n
        invariant
            0 <= i <= n,
            n == text@.len(),
            forall|k: int| 0 <= k < i ==> !is_control(#[trigger] text@[k]),
        decreases n - i,
    {
        let c = text.get_char(i);
        if char_is_control(c) {
            return false;
        }
        i += 1;
    }
    true
}

impl Router {
    pub fn new() -> (r: Router)
        ensures
            r@.capture is None,
            r@.hover is None,
            r@.focus is None,
    {
        Router { capture: None, hover: None, focus: None }
    }

    /// Who holds keyboard focus.
    pub fn focus(&self) -> (r: Option<(WindowId, TargetId)>)
        ensures
            r == self@.focus,
    {
        self.focus
    }

    /// The target a press bound, if a press is in progress.
    pub fn capture(&self) -> (r: Option<(WindowId, Option<TargetId>)>)
        ensures
            r == self@.capture,
    {
        self.capture
    }

    /// What the pointer is over.
    pub fn hover(&self) -> (r: Option<(WindowId, Option<TargetId>)>)
        ensures
            r == self@.hover,
    {
        self.hover
    }

    /// Move focus. Every transfer states why; focus moves here and nowhere else.
    pub fn set_focus(&mut self, to: Option<(WindowId, TargetId)>, why: Reason)
        ensures
            final(self)@ == (RouteState { focus: to, ..old(self)@ }),
    {
        self.focus = to;
    }

    /// Does routing a move need the host's hit test? Only when nothing is
    /// captured and no relative drag is running.
    pub fn wants_hit(&self, dragging: bool) -> (r: bool)
        ensures
            r == (!dragging && self@.capture is None),
    {
        !dragging && self.capture.is_none()
    }

    /// The pointer moved within window `id`; `hit` is what the host's hit test
    /// found there (consulted only when [`Router::wants_hit`] says so).
    pub fn pointer_moved(&mut self, id: WindowId, dragging: bool, hit: Option<TargetId>) -> (r: Vec<Delivery>)
        ensures
            final(self)@ == after_move(old(self)@, id, dragging, hit).0,
            r@ == after_move(old(self)@, id, dragging, hit).1,
    {
        let mut out: Vec<Delivery> = Vec::new();
        if dragging {
            return out;
        }
        if let Some((window, target)) = self.capture {
            out.push(Delivery { window, target, message: Message::Move });
            return out;
        }
        let over = Some((id, hit));
        if !same_place(self.hover, over) {
            if let Some((prev_window, prev)) = self.hover {
                out.push(Delivery { window: prev_window, target: prev, message: Message::Leave });
            }
            self.hover = over;
            out.push(Delivery { window: id, target: hit, message: Message::Enter });
        }
        out.push(Delivery { window: id, target: hit, message: Message::Move });
        proof {
            let s = old(self)@;
            let leave = match s.hover {
                Some((w, t)) => seq![delivery(w, t, Message::Leave)],
                None => seq![],
            };
            if s.hover != over {
                assert(out@ =~= leave.push(delivery(id, hit, Message::Enter)).push(
                    delivery(id, hit, Message::Move),
                ));
            } else {
                assert(out@ =~= Seq::<Delivery>::empty().push(delivery(id, hit, Message::Move)));
            }
        }
        out
    }

    /// The pointer left the window: whatever it hovered hears so.
    pub fn pointer_left(&mut self) -> (r: Vec<Delivery>)
        ensures
            final(self)@ == after_leave(old(self)@).0,
            r@ == after_leave(old(self)@).1,
    {
        let mut out: Vec<Delivery> = Vec::new();
        if let Some((window, target)) = self.hover {
            self.hover = None;
            out.push(Delivery { window, target, message: Message::Leave });
            proof {
                assert(out@ =~= seq![delivery(window, target, Message::Leave)]);
            }
        }
        out
    }

    /// A press binds its target for the whole gesture. It does not move focus:
    /// activation is not focus.
    pub fn pointer_pressed(&mut self, id: WindowId, hit: Option<TargetId>) -> (r: Delivery)
        ensures
            final(self)@ == after_press(old(self)@, id, hit).0,
            r == after_press(old(self)@, id, hit).1,
    {
        self.capture = Some((id, hit));
        Delivery { window: id, target: hit, message: Message::Down }
    }

    /// The release goes to whatever the press bound, and ends the capture.
    pub fn pointer_released(&mut self, id: WindowId) -> (r: Delivery)
        ensures
            final(self)@ == after_release(old(self)@, id).0,
            r == after_release(old(self)@, id).1,
    {
        let (window, target) = match self.capture {
            Some(c) => c,
            None => (id, None),
        };
        self.capture = None;
        Delivery { window, target, message: Message::Up }
    }

    /// Wheel on hover: what the pointer is over, not what holds focus.
    pub fn pointer_wheel(&self, id: WindowId) -> (r: Delivery)
        ensures
            r == delivery(id, wheel_target(self@, id), Message::Wheel),
    {
        let target = match self.hover {
            Some((w, t)) => if w.0 == id.0 {
                t
            } else {
                None
            },
            None => None,
        };
        Delivery { window: id, target, message: Message::Wheel }
    }

    /// Relative motion during a captured drag goes to the captured target.
    pub fn pointer_delta(&self, window: WindowId) -> (r: Delivery)
        ensures
            r == delivery(
                window,
                match self@.capture {
                    Some((_, t)) => t,
                    None => None,
                },
                Message::Delta,
            ),
    {
        let target = match self.capture {
            Some((_, t)) => t,
            None => None,
        };
        Delivery { window, target, message: Message::Delta }
    }

    /// A key event in window `id`: the raw key to the focused target (when the
    /// key has a code), then — on press — its composed text, unless that text is
    /// control characters, which are keys and only keys.
    pub fn key(&self, id: WindowId, has_code: bool, pressed: bool, text: Option<&str>) -> (r: Vec<
        Delivery,
    >)
        ensures
            r@ == key_deliveries(
                self@,
                id,
                has_code,
                pressed,
                match text {
                    Some(t) => Some(t@),
                    None => None,
                },
            ),
    {
        let target = match self.focus {
            Some((w, t)) => if w.0 == id.0 {
                Some(t)
            } else {
                None
            },
            None => None,
        };
        let mut out: Vec<Delivery> = Vec::new();
        if has_code {
            out.push(Delivery { window: id, target, message: Message::Key });
        }
        if pressed {
            if let Some(t) = text {
                if text_is_composed(t) {
                    out.push(Delivery { window: id, target, message: Message::Text });
                }
            }
        }
        proof {
            let key = if has_code {
                seq![delivery(id, target, Message::Key)]
            } else {
                seq![]
            };
            assert(key =~= if has_code {
                Seq::<Delivery>::empty().push(delivery(id, target, Message::Key))
            } else {
                Seq::<Delivery>::empty()
            });
        }
        out
    }
}

// ── Laws ──────────────────────────────────────────────────────────────────────

/// Implicit capture: once a press binds `(id, hit)`, every move — wherever the
/// pointer goes and whatever it is over — is delivered to that target alone, and
/// the release is too, after which nothing is captured.
pub proof fn lemma_a_press_binds_its_target_until_release(
    s: RouteState,
    id: WindowId,
    hit: Option<TargetId>,
    elsewhere: WindowId,
    over: Option<TargetId>,
)
    ensures
        ({
            let pressed = after_press(s, id, hit).0;
            let moved = after_move(pressed, elsewhere, false, over);
            let released = after_release(moved.0, elsewhere);
            &&& moved.0 == pressed
            &&& moved.1 == seq![delivery(id, hit, Message::Move)]
            &&& released.1 == delivery(id, hit, Message::Up)
            &&& released.0.capture is None
        }),
{
}

/// Activation is not focus: pressing, releasing, moving and leaving never move
/// keyboard focus.
pub proof fn lemma_pointer_input_never_moves_focus(
    s: RouteState,
    id: WindowId,
    dragging: bool,
    hit: Option<TargetId>,
)
    ensures
        after_press(s, id, hit).0.focus == s.focus,
        after_release(s, id).0.focus == s.focus,
        after_move(s, id, dragging, hit).0.focus == s.focus,
        after_leave(s).0.focus == s.focus,
{
}

/// No widget sees two enters without a leave between them: when the hovered
/// target changes, the old one hears `Leave` before the new one hears `Enter`.
pub proof fn lemma_leave_comes_before_enter(
    s: RouteState,
    id: WindowId,
    hit: Option<TargetId>,
    prev_window: WindowId,
    prev: Option<TargetId>,
)
    requires
        s.capture is None,
        s.hover == Some((prev_window, prev)),
        s.hover != Some((id, hit)),
    ensures
        after_move(s, id, false, hit).1 == seq![
            delivery(prev_window, prev, Message::Leave),
            delivery(id, hit, Message::Enter),
            delivery(id, hit, Message::Move),
        ],
{
    assert(after_move(s, id, false, hit).1 =~= seq![
        delivery(prev_window, prev, Message::Leave),
        delivery(id, hit, Message::Enter),
        delivery(id, hit, Message::Move),
    ]);
}

/// Wheel on hover: where a wheel notch goes depends only on what the pointer is
/// over — never on focus, never on capture.
pub proof fn lemma_the_wheel_ignores_focus(a: RouteState, b: RouteState, id: WindowId)
    requires
        a.hover == b.hover,
    ensures
        wheel_target(a, id) == wheel_target(b, id),
{
}

/// Keys go to focus, not to what the pointer is over, and control characters
/// never arrive as text.
pub proof fn lemma_keys_follow_focus(
    a: RouteState,
    b: RouteState,
    id: WindowId,
    has_code: bool,
    pressed: bool,
    text: Seq<char>,
)
    requires
        a.focus == b.focus,
        exists|i: int| 0 <= i < text.len() && is_control(#[trigger] text[i]),
    ensures
        key_deliveries(a, id, has_code, pressed, Some(text)) == key_deliveries(
            b,
            id,
            has_code,
            pressed,
            Some(text),
        ),
        forall|k: int|
            0 <= k < key_deliveries(a, id, has_code, pressed, Some(text)).len() ==> (#[trigger] key_deliveries(
                a,
                id,
                has_code,
                pressed,
                Some(text),
            )[k]).message != Message::Text,
{
}

} // verus!
