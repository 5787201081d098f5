//! A button: becomes active when pressed, and calls its handler when it is
//! released over itself.
use vstd::prelude::*;

use crate::tree::{ElementState, EventKind};

verus! {

/// The properties of a button: whether it is disabled, and its handler
/// (none: a handler that does nothing).
pub struct Button<H> {
    pub disabled: bool,
    pub handler: Option<H>,
}

impl<H> Button<H> {
    /// An enabled button with a handler that does nothing.
    pub fn new() -> (b: Button<H>)
        ensures
            !b.disabled,
            b.handler is None,
    {
        Button { disabled: false, handler: None }
    }

    /// The button, disabled or not.
    pub fn disabled(self, disabled: bool) -> (b: Button<H>)
        ensures
            b.disabled == disabled,
            b.handler == self.handler,
    {
        Button { disabled, handler: self.handler }
    }

    /// The button with the given handler.
    pub fn handler(self, h: H) -> (b: Button<H>)
        ensures
            b.disabled == self.disabled,
            b.handler == Some(h),
    {
        Button { disabled: self.disabled, handler: Some(h) }
    }

    /// Whether two sets of properties are the same for layout: they are
    /// when both buttons are disabled or both are enabled.
    pub fn same_props(&self, other: &Button<H>) -> (b: bool)
        ensures
            b == (self.disabled == other.disabled),
    {
        self.disabled == other.disabled
    }
}

/// What a button does.
#[derive(Debug, Clone, Copy, PartialEq, Eq, Structural)]
pub enum ButtonAction {
    Clicked,
}

/// What a button's reaction to an event asks of the application.
#[derive(Debug, Clone, Copy, PartialEq, Eq, Structural)]
pub struct ButtonResponse {
    /// The button was clicked: its handler runs.
    pub clicked: bool,
    /// The button is repainted.
    pub repaint: bool,
    /// The event is handled.
    pub handled: bool,
}

/// The state of a button after an event, given whether the left button was
/// the one pressed or released.
pub open spec fn button_state_after(s: ElementState, kind: EventKind, left: bool) -> ElementState {
    if kind is MouseDown && left {
        ElementState { is_active: true, ..s }
    } else if kind is MouseUp && left && s.is_active {
        ElementState {
            is_active: false,
            request_update: s.request_update || s.is_hot,
            ..s
        }
    } else {
        s
    }
}

/// How a button responds to an event.
pub open spec fn button_response(s: ElementState, kind: EventKind, left: bool) -> ButtonResponse {
    let click = kind is MouseUp && left && s.is_active && s.is_hot;
    ButtonResponse { clicked: click, repaint: kind is MouseDown && left, handled: click }
}

/// A button's reaction to an event: a press of the left button makes it
/// active; releasing the left button while active makes it inactive and,
/// when the pointer is over the button, clicks it, asks for an update and
/// handles the event.
pub fn button_event(state: &mut ElementState, kind: EventKind, left_button: bool) -> (r:
    ButtonResponse)
    ensures
        *final(state) == button_state_after(*old(state), kind, left_button),
        r == button_response(*old(state), kind, left_button),
        kind is MouseDown && left_button ==> final(state).is_active,
        kind is MouseUp && left_button ==> !final(state).is_active,
        r.clicked == (kind is MouseUp && left_button && old(state).is_active && old(state).is_hot),
{
    proof {
        lemma_button_reaction(*old(state), kind, left_button);
    }
    let mut r = ButtonResponse { clicked: false, repaint: false, handled: false };
    match kind {
        EventKind::MouseDown => {
            if left_button {
                state.is_active = true;
                r.repaint = true;
            }
        },
        EventKind::MouseUp => {
            if state.is_active && left_button {
                state.is_active = false;
                if state.is_hot {
                    r.clicked = true;
                    state.request_update = true;
                    r.handled = true;
                }
            }
        },
        _ => {},
    }
    r
}

/// A press of the left button followed by its release over the button
/// clicks the button exactly once.
pub proof fn lemma_press_release_clicks(s: ElementState)
    requires
        s.is_hot,
    ensures
        ({
            let pressed = button_state_after(s, EventKind::MouseDown, true);
            &&& button_response(pressed, EventKind::MouseUp, true).clicked
            &&& !button_response(
                button_state_after(pressed, EventKind::MouseUp, true),
                EventKind::MouseUp,
                true,
            ).clicked
        }),
{
}

/// What a button does with an event, for every state it can be in: a
/// left press makes it active and asks for a repaint; after a left release
/// it is never active, whether the pointer is over it or not; it is clicked
/// exactly by a left release while active with the pointer over it, and
/// then asks for an update and handles the event; any other event, and any
/// other button, leaves it as it is and does nothing. Only the active flag
/// and the update request ever change.
pub proof fn lemma_button_reaction(s: ElementState, kind: EventKind, left: bool)
    ensures
        ({
            let t = button_state_after(s, kind, left);
            let r = button_response(s, kind, left);
            &&& kind is MouseDown && left ==> t.is_active && r.repaint && !r.clicked && !r.handled
            &&& kind is MouseUp && left ==> !t.is_active
            &&& r.clicked == (kind is MouseUp && left && s.is_active && s.is_hot)
            &&& r.handled == r.clicked
            &&& r.clicked ==> t.request_update
            &&& r.repaint == (kind is MouseDown && left)
            &&& !left || !(kind is MouseDown || kind is MouseUp) ==> t == s && !r.clicked && !r.repaint
            &&& t == (ElementState { is_active: t.is_active, request_update: t.request_update, ..s })
            &&& !s.request_update ==> (t.request_update == r.clicked)
        }),
{
}

} // verus!
