//! The decisions a window makes around the work on its widget tree.
use vstd::prelude::*;

use crate::app_state::{handled_of, Handled};
use crate::tree::EventKind;

verus! {

/// How a window gets its size.
#[derive(Debug, Clone, Copy, PartialEq, Eq, Structural)]
pub enum WindowSizePolicy {
    /// The window takes the size of its content.
    Content,
    /// The user sizes the window.
    User,
}

/// What a window does around handing an event to its widget tree.
#[derive(Debug, Clone, Copy, PartialEq, Eq, Structural)]
pub struct WindowEventSteps {
    /// Record the new size carried by the event first.
    pub record_size: bool,
    /// Send the tree a lifecycle event first (the window was connected).
    pub lifecycle_first: bool,
    /// Lay the tree out afterwards, so that a window sized by its content
    /// gets a size even before it is asked to paint.
    pub layout_after: bool,
}

/// The steps around an event of the given kind, for a window with the given
/// size policy.
pub fn window_event_steps(kind: EventKind, policy: WindowSizePolicy) -> (s: WindowEventSteps)
    ensures
        s.record_size == (kind is WindowSize),
        s.lifecycle_first == (kind is WindowConnected),
        s.layout_after == (kind is WindowSize && policy is Content),
{
    let resize = match kind {
        EventKind::WindowSize => true,
        _ => false,
    };
    let connected = match kind {
        EventKind::WindowConnected => true,
        _ => false,
    };
    let content = match policy {
        WindowSizePolicy::Content => true,
        WindowSizePolicy::User => false,
    };
    WindowEventSteps { record_size: resize, lifecycle_first: connected, layout_after: resize && content }
}

/// The window's answer to an event that its widget tree got on a fresh
/// context (one that starts unhandled): `Yes` exactly when the tree handled
/// it.
pub fn window_event_answer(tree_handled: bool) -> (h: Handled)
    ensures
        h == handled_of(tree_handled),
{
    Handled::from(tree_handled)
}

/// What a window asks the platform to repaint at the end of an update.
#[derive(Debug, Clone, Copy, PartialEq, Eq, Structural)]
pub enum Invalidation {
    /// The whole window: its tree needs a layout.
    Whole,
    /// The bounding box of the invalid region.
    Rect,
    /// Nothing.
    Nothing,
}

/// The repaint request at the end of an update: everything when the tree
/// needs a layout, else the invalid region's bounding box unless it is
/// empty.
pub fn invalidation(root_needs_layout: bool, invalid_box_empty: bool) -> (i: Invalidation)
    ensures
        i == if root_needs_layout {
            Invalidation::Whole
        } else if invalid_box_empty {
            Invalidation::Nothing
        } else {
            Invalidation::Rect
        },
{
    if root_needs_layout {
        Invalidation::Whole
    } else if invalid_box_empty {
        Invalidation::Nothing
    } else {
        Invalidation::Rect
    }
}

} // verus!
