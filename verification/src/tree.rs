//! The nodes of the widget tree and the per-node layout bookkeeping.
use vstd::prelude::*;

use crate::key::{Key, LocalKey};

verus! {

/// A handle to a piece of state owned by the widget tree.
///
/// Two handles are equal exactly when they refer to the same state cell.
#[derive(Clone, Copy, Debug, PartialEq, Eq, Structural, Hash)]
pub struct StateHandle {
    pub id: u64,
}

impl StateHandle {
    /// The handle of the state cell with the given identity.
    pub fn new(id: u64) -> (h: StateHandle)
        ensures
            h.id == id,
    {
        StateHandle { id }
    }
}

/// A state cell remembered at a call location.
#[derive(Clone, Copy, Debug, PartialEq, Eq, Structural)]
pub struct StateNode {
    pub key: Key,
    pub state: StateHandle,
    pub dead: bool,
}

/// The remembered parameters of a memoized component.
#[derive(Clone, Debug)]
pub struct Meoizee<P> {
    pub key: Key,
    pub val: P,
    pub dead: bool,
}

/// Identity of a render element.
#[derive(Clone, Copy, Debug, PartialEq, Eq, Structural, Hash, PartialOrd, Ord)]
pub struct ElementId(pub u64);

/// Layout and interaction bookkeeping of a render element.
#[derive(Clone, Copy, Debug, PartialEq, Eq, Structural)]
pub struct ElementState {
    pub id: ElementId,
    /// Whether the element is painted.
    pub visible: bool,
    /// The element that bounds relayout when this one changes.
    pub relayout_boundary: Option<ElementId>,
    /// Hover state.
    pub is_hot: bool,
    /// Mouse down with left key.
    pub is_active: bool,
    /// Any descendant is active.
    pub has_active: bool,
    pub needs_layout: bool,
    /// Whether a layout callback of this element is currently running.
    pub doing_this_layout_with_callback: bool,
    /// Any descendant has requested update.
    pub request_update: bool,
}

/// The state of an element after `merge_up` with the given child.
pub open spec fn merged(parent: ElementState, child: ElementState) -> ElementState {
    ElementState {
        needs_layout: if parent.doing_this_layout_with_callback {
            parent.needs_layout
        } else {
            parent.needs_layout || child.needs_layout
        },
        has_active: parent.has_active || child.has_active,
        request_update: parent.request_update || child.request_update,
        ..parent
    }
}

impl ElementState {
    /// The state of a freshly created element.
    pub fn new(id: ElementId) -> (s: ElementState)
        ensures
            s.id == id,
            s.visible,
            s.relayout_boundary.is_none(),
            !s.is_hot,
            !s.is_active,
            !s.has_active,
            s.needs_layout,
            !s.doing_this_layout_with_callback,
            s.request_update,
    {
        ElementState {
            id,
            visible: true,
            relayout_boundary: None,
            is_hot: false,
            is_active: false,
            has_active: false,
            needs_layout: true,
            doing_this_layout_with_callback: false,
            request_update: true,
        }
    }

    /// Asks for a layout, unless a layout callback of this element is running.
    pub fn mark_needs_layout(&mut self)
        ensures
            *final(self) == (ElementState {
                needs_layout: old(self).needs_layout || !old(self).doing_this_layout_with_callback,
                ..*old(self)
            }),
    {
        if !self.doing_this_layout_with_callback {
            self.needs_layout = true;
        }
    }

    /// Update to incorporate state changes from a child.
    ///
    /// This method is idempotent and can be called multiple times.
    pub fn merge_up(&mut self, child_state: &ElementState)
        ensures
            *final(self) == merged(*old(self), *child_state),
    {
        if !self.doing_this_layout_with_callback {
            self.needs_layout = self.needs_layout || child_state.needs_layout;
        }
        self.has_active = self.has_active || child_state.has_active;
        self.request_update = self.request_update || child_state.request_update;
    }
}

/// Merging the same child twice changes nothing more than merging it once.
pub proof fn lemma_merge_up_idempotent(parent: ElementState, child: ElementState)
    ensures
        merged(merged(parent, child), child) == merged(parent, child),
{
}

/// A render element of the tree, with its own list of children.
#[derive(Debug)]
pub struct Element<P> {
    pub key: Key,
    pub local_key: LocalKey,
    pub dead: bool,
    pub state: ElementState,
    pub children: Children<P>,
}

/// The children of an element: remembered states, render elements and
/// memoized component parameters, each in visiting order.
#[derive(Debug)]
pub struct Children<P> {
    pub states: Vec<StateNode>,
    pub renders: Vec<Element<P>>,
    pub memoizees: Vec<Meoizee<P>>,
}

impl<P> Element<P> {
    /// A new live element for the given keys, with no children.
    pub fn new(key: Key, local_key: LocalKey, id: ElementId) -> (e: Element<P>)
        ensures
            e.key == key,
            e.local_key@ == local_key@,
            !e.dead,
            e.state == ElementState::new_spec(id),
            e.children.states@.len() == 0,
            e.children.renders@.len() == 0,
            e.children.memoizees@.len() == 0,
    {
        Element {
            key,
            local_key,
            dead: false,
            state: ElementState::new(id),
            children: Children::new(),
        }
    }
}

impl ElementState {
    /// The value that `ElementState::new` returns.
    pub open spec fn new_spec(id: ElementId) -> ElementState {
        ElementState {
            id,
            visible: true,
            relayout_boundary: None,
            is_hot: false,
            is_active: false,
            has_active: false,
            needs_layout: true,
            doing_this_layout_with_callback: false,
            request_update: true,
        }
    }
}

impl<P> Children<P> {
    /// An empty list of children.
    pub fn new() -> (c: Children<P>)
        ensures
            c.states@.len() == 0,
            c.renders@.len() == 0,
            c.memoizees@.len() == 0,
    {
        Children { states: Vec::new(), renders: Vec::new(), memoizees: Vec::new() }
    }

    /// The number of render elements.
    pub fn len(&self) -> (n: usize)
        ensures
            n == self.renders@.len(),
    {
        self.renders.len()
    }

    /// Whether there is no render element.
    pub fn is_empty(&self) -> (b: bool)
        ensures
            b <==> self.renders@.len() == 0,
    {
        self.len() == 0
    }

    /// The render element at `index`, if there is one.
    pub fn get(&self, index: usize) -> (e: Option<&Element<P>>)
        ensures
            index < self.renders@.len() ==> e == Some(&self.renders@[index as int]),
            index >= self.renders@.len() ==> e.is_none(),
    {
        if index < self.renders.len() {
            Some(&self.renders[index])
        } else {
            None
        }
    }

    /// Removes and returns the render element at `index`, if there is one.
    pub fn remove_element(&mut self, index: usize) -> (e: Option<Element<P>>)
        ensures
            index < old(self).renders@.len() ==> e == Some(old(self).renders@[index as int])
                && final(self).renders@ == old(self).renders@.remove(index as int),
            index >= old(self).renders@.len() ==> e.is_none() && final(self).renders@
                == old(self).renders@,
            final(self).states@ == old(self).states@,
            final(self).memoizees@ == old(self).memoizees@,
    {
        if index >= self.renders.len() {
            return None;
        }
        let el = self.renders.remove(index);
        Some(el)
    }

    /// Inserts a render element at `index`.
    pub fn insert(&mut self, index: usize, child: Element<P>)
        requires
            index <= old(self).renders@.len(),
        ensures
            final(self).renders@ == old(self).renders@.insert(index as int, child),
            final(self).states@ == old(self).states@,
            final(self).memoizees@ == old(self).memoizees@,
    {
        self.renders.insert(index, child);
    }
}

/// The kinds of events that travel down the element tree.
#[derive(Clone, Copy, Debug, PartialEq, Eq, Structural)]
pub enum EventKind {
    WindowConnected,
    WindowSize,
    MouseDown,
    MouseUp,
    MouseMove,
    Wheel,
    AnimFrame,
    KeyDown,
    KeyUp,
    Paste,
    Zoom,
    Timer,
    /// Any other event; it is handed on to the children.
    Other,
}

/// Whether the event carries a pointer position.
pub open spec fn is_pointer_event(kind: EventKind) -> bool {
    kind is MouseDown || kind is MouseUp || kind is MouseMove || kind is Wheel
}

/// What an element does with an event before its render object sees it.
#[derive(Clone, Copy, Debug, PartialEq, Eq, Structural)]
pub struct EventRoute {
    /// Whether the render object (and so the children) gets the event.
    pub recurse: bool,
    /// Whether the hover state changed, so that the render object is told of it.
    pub hot_changed: bool,
    /// Whether the pointer position is moved into the element's own coordinates.
    pub translate: bool,
}

/// The hover state after an event: a pointer event sets it to whether the
/// pointer lies inside the element; other events leave it.
pub open spec fn hot_after(s: ElementState, kind: EventKind, pointer_inside: bool) -> bool {
    if is_pointer_event(kind) {
        pointer_inside
    } else {
        s.is_hot
    }
}

/// Where an event that was not handled yet goes.
pub open spec fn route_of(s: ElementState, kind: EventKind, pointer_inside: bool) -> EventRoute {
    let hot = hot_after(s, kind, pointer_inside);
    let hot_changed = is_pointer_event(kind) && s.is_hot != pointer_inside;
    let recurse = if is_pointer_event(kind) {
        s.has_active || hot || (kind is MouseMove && hot_changed)
    } else {
        !(kind is AnimFrame || kind is Timer)
    };
    EventRoute { recurse, hot_changed, translate: recurse && is_pointer_event(kind) }
}

/// The state of an element once an unhandled event has been routed.
pub open spec fn routed_state(s: ElementState, kind: EventKind, pointer_inside: bool) -> ElementState {
    let r = route_of(s, kind, pointer_inside);
    ElementState {
        needs_layout: s.needs_layout || kind is WindowSize,
        is_hot: hot_after(s, kind, pointer_inside),
        has_active: if r.recurse {
            false
        } else {
            s.has_active
        },
        ..s
    }
}

/// How an element routes an event that is not handled yet. A pointer
/// event (press, release, move, wheel) goes on to the render object when
/// an element below is active, or when the pointer is inside the element;
/// a move also goes on when it carries the pointer in or out. Otherwise a
/// pointer event stops here. A pointer event sets the hover state to
/// whether the pointer is inside, and the route reports a change of it; a
/// pointer event that goes on is moved into the element's coordinates.
/// Animation frames and timers stop here; every other event goes on, in
/// the parent's coordinates, and leaves the hover state alone.
pub proof fn lemma_event_routing(s: ElementState, kind: EventKind, pointer_inside: bool)
    ensures
        ({
            let pointer = kind is MouseDown || kind is MouseUp || kind is MouseMove || kind is Wheel;
            let r = route_of(s, kind, pointer_inside);
            let t = routed_state(s, kind, pointer_inside);
            &&& pointer && s.has_active ==> r.recurse
            &&& pointer && pointer_inside ==> r.recurse
            &&& kind is MouseMove && s.is_hot != pointer_inside ==> r.recurse
            &&& pointer && !s.has_active && !pointer_inside && !(kind is MouseMove && s.is_hot)
                ==> !r.recurse
            &&& pointer ==> t.is_hot == pointer_inside && r.hot_changed == (s.is_hot != pointer_inside)
                && r.translate == r.recurse
            &&& !pointer ==> t.is_hot == s.is_hot && !r.hot_changed && !r.translate
            &&& (kind is AnimFrame || kind is Timer) ==> !r.recurse
            &&& !pointer && !(kind is AnimFrame || kind is Timer) ==> r.recurse
            &&& r.recurse ==> !t.has_active
            &&& !r.recurse ==> t.has_active == s.has_active
            &&& t.needs_layout == (s.needs_layout || kind is WindowSize)
        }),
{
}

impl ElementState {
    /// Routes an event at this element.
    ///
    /// An event that is already handled goes nowhere and changes nothing. A
    /// window resize asks for a layout. A pointer event updates the hover
    /// state from `pointer_inside` (whether the pointer lies inside the
    /// element) and reaches the render object only when the element or a
    /// descendant is active, the element is hovered, or (for a move) the
    /// hover state just changed. Animation frames and timers stop here; all
    /// other events go on. When the event goes on, the descendants' active
    /// flag is cleared, to be gathered again from them.
    pub fn begin_event(&mut self, already_handled: bool, kind: EventKind, pointer_inside: bool) -> (r:
        EventRoute)
        ensures
            already_handled ==> *final(self) == *old(self) && r == (EventRoute {
                recurse: false,
                hot_changed: false,
                translate: false,
            }),
            !already_handled ==> *final(self) == routed_state(*old(self), kind, pointer_inside) && r
                == route_of(*old(self), kind, pointer_inside),
            !already_handled && is_pointer_event(kind) && old(self).has_active ==> r.recurse
                && r.translate,
            !already_handled && is_pointer_event(kind) && pointer_inside ==> r.recurse,
            !already_handled && (kind is AnimFrame || kind is Timer) ==> !r.recurse,
    {
        proof {
            lemma_event_routing(*old(self), kind, pointer_inside);
        }
        if already_handled {
            return EventRoute { recurse: false, hot_changed: false, translate: false };
        }
        let had_active = self.has_active;
        let pointer = match kind {
            EventKind::MouseDown | EventKind::MouseUp | EventKind::MouseMove | EventKind::Wheel => true,
            _ => false,
        };
        let mut hot_changed = false;
        if pointer {
            let had_hot = self.is_hot;
            self.is_hot = pointer_inside;
            hot_changed = had_hot != pointer_inside;
        }
        let recurse = match kind {
            EventKind::WindowSize => {
                self.needs_layout = true;
                true
            },
            EventKind::MouseMove => had_active || self.is_hot || hot_changed,
            EventKind::MouseDown | EventKind::MouseUp | EventKind::Wheel => had_active || self.is_hot,
            EventKind::AnimFrame | EventKind::Timer => false,
            _ => true,
        };
        if recurse {
            self.has_active = false;
        }
        EventRoute { recurse, hot_changed, translate: recurse && pointer }
    }

    /// Closes the handling of an event at this element. An event that was
    /// already handled when it arrived (`handled`) changes nothing, here or
    /// at the parent. Otherwise, when the render object got the event, the
    /// element counts itself among the active descendants if it is active;
    /// then the parent merges the state up.
    /// Returns whether the event is now handled: it was (`handled`), or the
    /// render object got it and handled it (`object_handled`).
    pub fn finish_event(
        &mut self,
        recursed: bool,
        object_handled: bool,
        parent: &mut ElementState,
        handled: bool,
    ) -> (now_handled: bool)
        ensures
            handled ==> *final(self) == *old(self) && *final(parent) == *old(parent),
            !handled ==> *final(self) == (ElementState {
                has_active: old(self).has_active || (recursed && old(self).is_active),
                ..*old(self)
            }),
            !handled ==> *final(parent) == merged(*old(parent), *final(self)),
            now_handled == (handled || (recursed && object_handled)),
    {
        if handled {
            return true;
        }
        if recursed {
            self.has_active = self.has_active || self.is_active;
        }
        parent.merge_up(self);
        recursed && object_handled
    }
}

/// Once an active element has handled an event that reached it, its parent
/// knows that a descendant is active.
pub proof fn lemma_active_reaches_parent(
    parent: ElementState,
    child: ElementState,
    kind: EventKind,
    pointer_inside: bool,
)
    requires
        route_of(child, kind, pointer_inside).recurse,
        child.is_active,
    ensures
        ({
            let routed = routed_state(child, kind, pointer_inside);
            let finished = ElementState { has_active: routed.has_active || routed.is_active, ..routed };
            merged(parent, finished).has_active
        }),
{
}


/// An element's bookkeeping once its relayout boundary is forgotten: it has
/// no boundary and asks for a layout (unless a layout callback of it is
/// running).
pub open spec fn cleaned_state(s: ElementState) -> ElementState {
    ElementState {
        relayout_boundary: None,
        needs_layout: s.needs_layout || !s.doing_this_layout_with_callback,
        ..s
    }
}

/// Whether `new` is `old` after `clean_relayout_boundary`: an element that is
/// its own relayout boundary stays as it is; any other forgets its boundary,
/// asks for a layout and cleans its children in turn.
pub open spec fn is_cleaned<P>(old: Element<P>, new: Element<P>) -> bool
    decreases old,
{
    if old.state.relayout_boundary == Some(old.state.id) {
        new == old
    } else {
        &&& new.key == old.key
        &&& new.local_key == old.local_key
        &&& new.dead == old.dead
        &&& new.state == cleaned_state(old.state)
        &&& new.children.states == old.children.states
        &&& new.children.memoizees == old.children.memoizees
        &&& new.children.renders@.len() == old.children.renders@.len()
        &&& forall|i: int|
            0 <= i < old.children.renders@.len() ==> is_cleaned(
                #[trigger] old.children.renders@[i],
                new.children.renders@[i],
            )
    }
}

/// The state of an element after it merged up the states of `children`, in
/// order.
pub open spec fn merged_all<P>(s: ElementState, children: Seq<Element<P>>) -> ElementState
    decreases children.len(),
{
    if children.len() == 0 {
        s
    } else {
        merged(merged_all(s, children.drop_last()), children.last().state)
    }
}

/// The relayout boundary that a layout gives an element: the element itself
/// when its parent does not use its size, when it is sized by its parent
/// alone or when the constraints are tight; else the parent's boundary.
pub open spec fn layout_boundary(
    id: ElementId,
    parent_boundary: Option<ElementId>,
    parent_use_size: bool,
    sized_by_parent: bool,
    tight: bool,
) -> Option<ElementId> {
    if !parent_use_size || sized_by_parent || tight {
        Some(id)
    } else {
        parent_boundary
    }
}

impl<P> Element<P> {
    /// Forgets the relayout boundary of this element and, below it, of every
    /// element that is not its own boundary, asking each of them for a layout.
    pub fn clean_relayout_boundary(&mut self)
        ensures
            is_cleaned(*old(self), *final(self)),
        decreases *old(self),
    {
        let own = match self.state.relayout_boundary {
            Some(b) => b.0 == self.state.id.0,
            None => false,
        };
        if own {
            return;
        }
        self.state.relayout_boundary = None;
        self.state.mark_needs_layout();
        let n = self.children.renders.len();
        let mut i: usize = 0;
        while i < n
            invariant
                n == old(self).children.renders@.len(),
                i <= n,
                self.key == old(self).key,
                self.local_key == old(self).local_key,
                self.dead == old(self).dead,
                self.state == cleaned_state(old(self).state),
                self.children.states == old(self).children.states,
                self.children.memoizees == old(self).children.memoizees,
                self.children.renders@.len() == n,
                forall|j: int|
                    0 <= j < i ==> is_cleaned(
                        #[trigger] old(self).children.renders@[j],
                        self.children.renders@[j],
                    ),
                forall|j: int| i <= j < n ==> #[trigger] self.children.renders@[j] == old(self).children.renders@[j],
            decreases n - i,
        {
            self.children.renders[i].clean_relayout_boundary();
            i += 1;
        }
    }

    /// Decides whether a layout of this element has to run, and records the
    /// relayout boundary that it gets.
    ///
    /// Nothing runs when the element does not need a layout, the constraints
    /// are the same as last time and the boundary stays. Otherwise the
    /// element takes the new boundary; where that is an element and not the
    /// one it had, the children forget theirs first.
    pub fn should_do_layout(
        &mut self,
        parent_boundary: Option<ElementId>,
        parent_use_size: bool,
        sized_by_parent: bool,
        tight: bool,
        same_constraints: bool,
    ) -> (r: bool)
        ensures
            ({
                let b = layout_boundary(
                    old(self).state.id,
                    parent_boundary,
                    parent_use_size,
                    sized_by_parent,
                    tight,
                );
                if !old(self).state.needs_layout && same_constraints && b == old(self).state.relayout_boundary {
                    !r && *final(self) == *old(self)
                } else {
                    &&& r
                    &&& final(self).key == old(self).key
                    &&& final(self).local_key == old(self).local_key
                    &&& final(self).dead == old(self).dead
                    &&& final(self).state == (ElementState { relayout_boundary: b, ..old(self).state })
                    &&& final(self).children.states == old(self).children.states
                    &&& final(self).children.memoizees == old(self).children.memoizees
                    &&& if b is Some && b != old(self).state.relayout_boundary {
                        &&& final(self).children.renders@.len() == old(self).children.renders@.len()
                        &&& forall|i: int|
                            0 <= i < old(self).children.renders@.len() ==> is_cleaned(
                                #[trigger] old(self).children.renders@[i],
                                final(self).children.renders@[i],
                            )
                    } else {
                        final(self).children.renders == old(self).children.renders
                    }
                }
            }),
    {
        let b = if !parent_use_size || sized_by_parent || tight {
            Some(self.state.id)
        } else {
            parent_boundary
        };
        let same_boundary = match (b, self.state.relayout_boundary) {
            (Some(x), Some(y)) => x.0 == y.0,
            (None, None) => true,
            _ => false,
        };
        if !self.state.needs_layout && same_constraints && same_boundary {
            return false;
        }
        if b.is_some() && !same_boundary {
            let n = self.children.renders.len();
            let mut i: usize = 0;
            while i < n
                invariant
                    n == old(self).children.renders@.len(),
                    i <= n,
                    self.key == old(self).key,
                    self.local_key == old(self).local_key,
                    self.dead == old(self).dead,
                    self.state == old(self).state,
                    self.children.states == old(self).children.states,
                    self.children.memoizees == old(self).children.memoizees,
                    self.children.renders@.len() == n,
                    forall|j: int|
                        0 <= j < i ==> is_cleaned(
                            #[trigger] old(self).children.renders@[j],
                            self.children.renders@[j],
                        ),
                    forall|j: int| i <= j < n ==> #[trigger] self.children.renders@[j] == old(self).children.renders@[j],
                decreases n - i,
            {
                self.children.renders[i].clean_relayout_boundary();
                i += 1;
            }
        }
        self.state.relayout_boundary = b;
        true
    }

    /// Merges the states of all render children up into this element.
    pub fn merge_child_states_up(&mut self)
        ensures
            final(self).state == merged_all(old(self).state, old(self).children.renders@),
            final(self).key == old(self).key,
            final(self).local_key == old(self).local_key,
            final(self).dead == old(self).dead,
            final(self).children == old(self).children,
    {
        let n = self.children.renders.len();
        let mut i: usize = 0;
        while i < n
            invariant
                n == self.children.renders@.len(),
                i <= n,
                self.key == old(self).key,
                self.local_key == old(self).local_key,
                self.dead == old(self).dead,
                self.children == old(self).children,
                self.state == merged_all(old(self).state, self.children.renders@.take(i as int)),
            decreases n - i,
        {
            assert(self.children.renders@.take(i + 1).drop_last() =~= self.children.renders@.take(i as int));
            self.state.merge_up(&self.children.renders[i].state);
            i += 1;
        }
        assert(self.children.renders@.take(n as int) =~= self.children.renders@);
    }
}

/// What merging up a list of children adds to an element's flags: a layout
/// request of any child (unless a layout callback of the element runs), and
/// the active and update flags of any child.
pub proof fn lemma_merged_all_flags<P>(s: ElementState, children: Seq<Element<P>>)
    ensures
        merged_all(s, children) == (ElementState {
            needs_layout: s.needs_layout || (!s.doing_this_layout_with_callback && exists|i: int|
                0 <= i < children.len() && (#[trigger] children[i]).state.needs_layout),
            has_active: s.has_active || exists|i: int|
                0 <= i < children.len() && (#[trigger] children[i]).state.has_active,
            request_update: s.request_update || exists|i: int|
                0 <= i < children.len() && (#[trigger] children[i]).state.request_update,
            ..s
        }),
    decreases children.len(),
{
    if children.len() > 0 {
        let init = children.drop_last();
        lemma_merged_all_flags(s, init);
        assert forall|i: int| 0 <= i < init.len() implies #[trigger] init[i] == children[i] by {}
        if exists|i: int| 0 <= i < children.len() && (#[trigger] children[i]).state.needs_layout {
            let w = choose|i: int| 0 <= i < children.len() && (#[trigger] children[i]).state.needs_layout;
            if w < init.len() {
                assert(init[w] == children[w]);
            }
        }
        if exists|i: int| 0 <= i < children.len() && (#[trigger] children[i]).state.has_active {
            let w = choose|i: int| 0 <= i < children.len() && (#[trigger] children[i]).state.has_active;
            if w < init.len() {
                assert(init[w] == children[w]);
            }
        }
        if exists|i: int| 0 <= i < children.len() && (#[trigger] children[i]).state.request_update {
            let w = choose|i: int| 0 <= i < children.len() && (#[trigger] children[i]).state.request_update;
            if w < init.len() {
                assert(init[w] == children[w]);
            }
        }
        if exists|i: int| 0 <= i < init.len() && (#[trigger] init[i]).state.needs_layout {
            let w = choose|i: int| 0 <= i < init.len() && (#[trigger] init[i]).state.needs_layout;
            assert(children[w] == init[w]);
        }
        if exists|i: int| 0 <= i < init.len() && (#[trigger] init[i]).state.has_active {
            let w = choose|i: int| 0 <= i < init.len() && (#[trigger] init[i]).state.has_active;
            assert(children[w] == init[w]);
        }
        if exists|i: int| 0 <= i < init.len() && (#[trigger] init[i]).state.request_update {
            let w = choose|i: int| 0 <= i < init.len() && (#[trigger] init[i]).state.request_update;
            assert(children[w] == init[w]);
        }
    }
}

/// Merging the states of the children up twice gives what merging them up
/// once gives.
pub proof fn lemma_merge_children_idempotent<P>(s: ElementState, children: Seq<Element<P>>)
    ensures
        merged_all(merged_all(s, children), children) == merged_all(s, children),
{
    lemma_merged_all_flags(s, children);
    lemma_merged_all_flags(merged_all(s, children), children);
}

/// `sorted` with the pair `x` put after the pairs whose target is not above
/// its own.
pub open spec fn insert_by_target(sorted: Seq<(usize, usize)>, x: (usize, usize)) -> Seq<(usize, usize)>
    decreases sorted.len(),
{
    if sorted.len() == 0 {
        seq![x]
    } else if x.1 < sorted[0].1 {
        seq![x] + sorted
    } else {
        seq![sorted[0]] + insert_by_target(sorted.drop_first(), x)
    }
}

/// The pairs of `mapping` sorted by target; pairs with the same target keep
/// their order.
pub open spec fn sort_by_target(mapping: Seq<(usize, usize)>) -> Seq<(usize, usize)>
    decreases mapping.len(),
{
    if mapping.len() == 0 {
        Seq::empty()
    } else {
        insert_by_target(sort_by_target(mapping.drop_last()), mapping.last())
    }
}

/// The list that `order` builds from the elements `old`: for each pair
/// `(f, s)` in turn, the element at `f` is inserted at position `s`.
pub open spec fn placed<P>(old: Seq<Element<P>>, order: Seq<(usize, usize)>) -> Seq<Element<P>>
    decreases order.len(),
{
    if order.len() == 0 {
        Seq::empty()
    } else {
        placed(old, order.drop_last()).insert(order.last().1 as int, old[order.last().0 as int])
    }
}

/// Whether each pair of `order` inserts at a position that the list built so
/// far has: the `k`-th pair's target is at most `k`.
pub open spec fn inserts_fit(order: Seq<(usize, usize)>) -> bool {
    forall|k: int| 0 <= k < order.len() ==> (#[trigger] order[k]).1 <= k
}

/// Whether the sources of `mapping` are positions of a list of `n`, each
/// named once.
pub open spec fn sources_distinct(mapping: Seq<(usize, usize)>, n: int) -> bool {
    &&& forall|k: int| 0 <= k < mapping.len() ==> (#[trigger] mapping[k]).0 < n
    &&& forall|k: int, l: int|
        0 <= k < mapping.len() && 0 <= l < mapping.len() && k != l ==> (#[trigger] mapping[k]).0 != (
        #[trigger] mapping[l]).0
}

proof fn lemma_insert_by_target(sorted: Seq<(usize, usize)>, x: (usize, usize), n: int)
    ensures
        insert_by_target(sorted, x).len() == sorted.len() + 1,
        forall|y: (usize, usize)|
            #[trigger] insert_by_target(sorted, x).contains(y) ==> y == x || sorted.contains(y),
        sources_distinct(sorted, n) && x.0 < n && (forall|j: int|
            0 <= j < sorted.len() ==> (#[trigger] sorted[j]).0 != x.0) ==> sources_distinct(
            insert_by_target(sorted, x),
            n,
        ),
    decreases sorted.len(),
{
    let r = insert_by_target(sorted, x);
    if sorted.len() == 0 {
    } else if x.1 < sorted[0].1 {
        assert forall|y: (usize, usize)| r.contains(y) implies y == x || sorted.contains(y) by {
            let i = choose|i: int| 0 <= i < r.len() && r[i] == y;
            if i > 0 {
                assert(sorted[i - 1] == y);
            }
        }
    } else {
        let rest = sorted.drop_first();
        lemma_insert_by_target(rest, x, n);
        let ins = insert_by_target(rest, x);
        assert(r == seq![sorted[0]] + ins);
        assert forall|y: (usize, usize)| r.contains(y) implies y == x || sorted.contains(y) by {
            let i = choose|i: int| 0 <= i < r.len() && r[i] == y;
            if i > 0 {
                assert(ins[i - 1] == y);
                assert(ins.contains(y));
                if y != x {
                    assert(rest.contains(y));
                    let j = choose|j: int| 0 <= j < rest.len() && rest[j] == y;
                    assert(sorted[j + 1] == y);
                }
            } else {
                assert(sorted[0] == y);
            }
        }
        if sources_distinct(sorted, n) && x.0 < n && (forall|j: int|
            0 <= j < sorted.len() ==> (#[trigger] sorted[j]).0 != x.0) {
            assert forall|j: int| 0 <= j < rest.len() implies (#[trigger] rest[j]).0 != x.0 by {
                assert(rest[j] == sorted[j + 1]);
            }
            assert(sources_distinct(rest, n)) by {
                assert forall|k: int, l: int|
                    0 <= k < rest.len() && 0 <= l < rest.len() && k != l implies (#[trigger] rest[k]).0
                        != (#[trigger] rest[l]).0 by {
                    assert(rest[k] == sorted[k + 1] && rest[l] == sorted[l + 1]);
                }
                assert forall|k: int| 0 <= k < rest.len() implies (#[trigger] rest[k]).0 < n by {
                    assert(rest[k] == sorted[k + 1]);
                }
            }
            assert forall|k: int| 0 <= k < ins.len() implies (#[trigger] ins[k]).0 != sorted[0].0 by {
                assert(ins.contains(ins[k]));
                if ins[k] != x {
                    let j = choose|j: int| 0 <= j < rest.len() && rest[j] == ins[k];
                    assert(sorted[j + 1] == ins[k]);
                }
            }
            assert forall|k: int, l: int|
                0 <= k < r.len() && 0 <= l < r.len() && k != l implies (#[trigger] r[k]).0 != (
                #[trigger] r[l]).0 by {
                if k > 0 && l > 0 {
                    assert(r[k] == ins[k - 1] && r[l] == ins[l - 1]);
                } else if k == 0 {
                    assert(r[l] == ins[l - 1]);
                } else {
                    assert(r[k] == ins[k - 1]);
                }
            }
            assert forall|k: int| 0 <= k < r.len() implies (#[trigger] r[k]).0 < n by {
                if k > 0 {
                    assert(r[k] == ins[k - 1]);
                    assert(ins.contains(ins[k - 1]));
                    if ins[k - 1] != x {
                        let j = choose|j: int| 0 <= j < rest.len() && rest[j] == ins[k - 1];
                        assert(sorted[j + 1] == ins[k - 1]);
                    }
                }
            }
        }
    }
}

proof fn lemma_sort_by_target(mapping: Seq<(usize, usize)>, n: int)
    ensures
        sort_by_target(mapping).len() == mapping.len(),
        forall|y: (usize, usize)| #[trigger] sort_by_target(mapping).contains(y) ==> mapping.contains(y),
        sources_distinct(mapping, n) ==> sources_distinct(sort_by_target(mapping), n),
    decreases mapping.len(),
{
    if mapping.len() > 0 {
        let init = mapping.drop_last();
        let x = mapping.last();
        lemma_sort_by_target(init, n);
        let sorted = sort_by_target(init);
        lemma_insert_by_target(sorted, x, n);
        assert forall|y: (usize, usize)| #[trigger] sort_by_target(mapping).contains(y) implies mapping.contains(
            y,
        ) by {
            if y == x {
                assert(mapping[mapping.len() - 1] == y);
            } else {
                assert(sorted.contains(y));
                assert(init.contains(y));
                let j = choose|j: int| 0 <= j < init.len() && init[j] == y;
                assert(mapping[j] == y);
            }
        }
        if sources_distinct(mapping, n) {
            assert(sources_distinct(init, n)) by {
                assert forall|k: int, l: int|
                    0 <= k < init.len() && 0 <= l < init.len() && k != l implies (#[trigger] init[k]).0
                        != (#[trigger] init[l]).0 by {
                    assert(init[k] == mapping[k] && init[l] == mapping[l]);
                }
                assert forall|k: int| 0 <= k < init.len() implies (#[trigger] init[k]).0 < n by {
                    assert(init[k] == mapping[k]);
                }
            }
            assert forall|j: int| 0 <= j < sorted.len() implies (#[trigger] sorted[j]).0 != x.0 by {
                assert(sorted.contains(sorted[j]));
                let i = choose|i: int| 0 <= i < init.len() && init[i] == sorted[j];
                assert(mapping[i] == sorted[j]);
                assert(mapping[mapping.len() - 1] == x);
            }
            assert(x.0 < n) by {
                assert(mapping[mapping.len() - 1] == x);
            }
        }
    }
}

/// Whether the targets of `s` strictly increase.
pub open spec fn targets_increase(s: Seq<(usize, usize)>) -> bool {
    forall|i: int, j: int| 0 <= i < j < s.len() ==> (#[trigger] s[i]).1 < (#[trigger] s[j]).1
}

/// Whether the targets of `s` are the positions of a list of `s.len()`,
/// each once.
pub open spec fn targets_permute(s: Seq<(usize, usize)>) -> bool {
    &&& forall|k: int| 0 <= k < s.len() ==> (#[trigger] s[k]).1 < s.len()
    &&& forall|k: int, l: int|
        0 <= k < s.len() && 0 <= l < s.len() && k != l ==> (#[trigger] s[k]).1 != (#[trigger] s[l]).1
}

proof fn lemma_insert_increasing(sorted: Seq<(usize, usize)>, x: (usize, usize))
    requires
        targets_increase(sorted),
        forall|j: int| 0 <= j < sorted.len() ==> (#[trigger] sorted[j]).1 != x.1,
    ensures
        targets_increase(insert_by_target(sorted, x)),
        forall|y: (usize, usize)| #[trigger] insert_by_target(sorted, x).contains(y) <==> (y == x || sorted.contains(y)),
    decreases sorted.len(),
{
    let r = insert_by_target(sorted, x);
    lemma_insert_by_target(sorted, x, 0);
    if sorted.len() == 0 {
        assert(r[0] == x);
    } else if x.1 < sorted[0].1 {
        assert forall|y: (usize, usize)| sorted.contains(y) implies r.contains(y) by {
            let i = choose|i: int| 0 <= i < sorted.len() && sorted[i] == y;
            assert(r[i + 1] == y);
        }
        assert(r[0] == x);
        assert forall|i: int, j: int| 0 <= i < j < r.len() implies (#[trigger] r[i]).1 < (#[trigger] r[j]).1 by {
            if i > 0 {
                assert(r[i] == sorted[i - 1] && r[j] == sorted[j - 1]);
            } else {
                assert(r[j] == sorted[j - 1]);
                if j > 1 {
                    assert(sorted[0].1 < sorted[j - 1].1);
                }
            }
        }
    } else {
        let rest = sorted.drop_first();
        assert forall|i: int, j: int| 0 <= i < j < rest.len() implies (#[trigger] rest[i]).1 < (#[trigger] rest[j]).1 by {
            assert(rest[i] == sorted[i + 1] && rest[j] == sorted[j + 1]);
        }
        assert forall|j: int| 0 <= j < rest.len() implies (#[trigger] rest[j]).1 != x.1 by {
            assert(rest[j] == sorted[j + 1]);
        }
        lemma_insert_increasing(rest, x);
        let ins = insert_by_target(rest, x);
        assert(r == seq![sorted[0]] + ins);
        assert forall|y: (usize, usize)| sorted.contains(y) implies r.contains(y) by {
            let i = choose|i: int| 0 <= i < sorted.len() && sorted[i] == y;
            if i == 0 {
                assert(r[0] == y);
            } else {
                assert(rest[i - 1] == y);
                assert(ins.contains(y));
                let k = choose|k: int| 0 <= k < ins.len() && ins[k] == y;
                assert(r[k + 1] == y);
            }
        }
        assert(ins.contains(x));
        let kx = choose|k: int| 0 <= k < ins.len() && ins[k] == x;
        assert(r[kx + 1] == x);
        assert forall|k: int| 0 <= k < ins.len() implies sorted[0].1 < (#[trigger] ins[k]).1 by {
            assert(ins.contains(ins[k]));
            if ins[k] != x {
                let j = choose|j: int| 0 <= j < rest.len() && rest[j] == ins[k];
                assert(sorted[j + 1] == ins[k]);
            } else {
                assert(sorted[0].1 != x.1);
            }
        }
        assert forall|i: int, j: int| 0 <= i < j < r.len() implies (#[trigger] r[i]).1 < (#[trigger] r[j]).1 by {
            assert(r[j] == ins[j - 1]);
            if i > 0 {
                assert(r[i] == ins[i - 1]);
            }
        }
    }
}

proof fn lemma_sort_increasing(mapping: Seq<(usize, usize)>)
    requires
        forall|k: int, l: int|
            0 <= k < mapping.len() && 0 <= l < mapping.len() && k != l ==> (#[trigger] mapping[k]).1
                != (#[trigger] mapping[l]).1,
    ensures
        targets_increase(sort_by_target(mapping)),
        forall|y: (usize, usize)| #[trigger] sort_by_target(mapping).contains(y) <==> mapping.contains(y),
    decreases mapping.len(),
{
    if mapping.len() > 0 {
        let init = mapping.drop_last();
        let x = mapping.last();
        assert forall|k: int, l: int|
            0 <= k < init.len() && 0 <= l < init.len() && k != l implies (#[trigger] init[k]).1 != (
            #[trigger] init[l]).1 by {
            assert(init[k] == mapping[k] && init[l] == mapping[l]);
        }
        lemma_sort_increasing(init);
        let sorted = sort_by_target(init);
        assert forall|j: int| 0 <= j < sorted.len() implies (#[trigger] sorted[j]).1 != x.1 by {
            assert(sorted.contains(sorted[j]));
            let i = choose|i: int| 0 <= i < init.len() && init[i] == sorted[j];
            assert(mapping[i] == sorted[j]);
            assert(mapping[mapping.len() - 1] == x);
        }
        lemma_insert_increasing(sorted, x);
        assert forall|y: (usize, usize)| #[trigger] sort_by_target(mapping).contains(y) <==> mapping.contains(y) by {
            if mapping.contains(y) {
                let i = choose|i: int| 0 <= i < mapping.len() && mapping[i] == y;
                if i < init.len() {
                    assert(init[i] == y);
                }
            }
            if sorted.contains(y) {
                let i = choose|i: int| 0 <= i < init.len() && init[i] == y;
                assert(mapping[i] == y);
            }
            if y == x {
                assert(mapping[mapping.len() - 1] == y);
            }
        }
    }
}

/// Strictly increasing targets below `s.len()` are the positions in order.
proof fn lemma_increasing_positions(s: Seq<(usize, usize)>, k: int)
    requires
        targets_increase(s),
        forall|i: int| 0 <= i < s.len() ==> (#[trigger] s[i]).1 < s.len(),
        0 <= k < s.len(),
    ensures
        s[k].1 == k,
    decreases s.len() - k,
{
    lemma_increasing_above(s, k);
    if k < s.len() - 1 {
        lemma_increasing_positions(s, k + 1);
        assert(s[k].1 < s[k + 1].1);
    }
}

proof fn lemma_increasing_above(s: Seq<(usize, usize)>, k: int)
    requires
        targets_increase(s),
        0 <= k < s.len(),
    ensures
        s[k].1 >= k,
    decreases k,
{
    if k > 0 {
        lemma_increasing_above(s, k - 1);
        assert(s[k - 1].1 < s[k].1);
    }
}

proof fn lemma_placed_in_order<P>(old: Seq<Element<P>>, order: Seq<(usize, usize)>)
    requires
        forall|k: int| 0 <= k < order.len() ==> (#[trigger] order[k]).1 == k,
    ensures
        placed(old, order).len() == order.len(),
        forall|k: int| 0 <= k < order.len() ==> placed(old, order)[k] == old[(#[trigger] order[k]).0 as int],
    decreases order.len(),
{
    if order.len() > 0 {
        let init = order.drop_last();
        assert forall|k: int| 0 <= k < init.len() implies (#[trigger] init[k]).1 == k by {
            assert(init[k] == order[k]);
        }
        lemma_placed_in_order(old, init);
        assert forall|k: int| 0 <= k < order.len() implies placed(old, order)[k] == old[(
        #[trigger] order[k]).0 as int] by {
            if k < init.len() {
                assert(init[k] == order[k]);
            }
        }
    }
}

/// When the targets of `mapping` are the positions of the new list, each
/// once, the rebuilt list fits and holds, at each target `s`, the element
/// that was at the source `f` of its pair: a swap.
pub proof fn lemma_swap_moves_to_targets<P>(old: Seq<Element<P>>, mapping: Seq<(usize, usize)>)
    requires
        targets_permute(mapping),
    ensures
        inserts_fit(sort_by_target(mapping)),
        placed(old, sort_by_target(mapping)).len() == mapping.len(),
        forall|k: int|
            0 <= k < mapping.len() ==> placed(old, sort_by_target(mapping))[(#[trigger] mapping[k]).1 as int]
                == old[mapping[k].0 as int],
{
    let sorted = sort_by_target(mapping);
    lemma_sort_increasing(mapping);
    lemma_sort_by_target(mapping, 0);
    assert forall|i: int| 0 <= i < sorted.len() implies (#[trigger] sorted[i]).1 < sorted.len() by {
        assert(sorted.contains(sorted[i]));
        let j = choose|j: int| 0 <= j < mapping.len() && mapping[j] == sorted[i];
    }
    assert forall|k: int| 0 <= k < sorted.len() implies (#[trigger] sorted[k]).1 == k by {
        lemma_increasing_positions(sorted, k);
    }
    lemma_placed_in_order(old, sorted);
    assert forall|k: int|
        0 <= k < mapping.len() implies placed(old, sorted)[(#[trigger] mapping[k]).1 as int] == old[mapping[k].0 as int] by {
        assert(mapping.contains(mapping[k]));
        assert(sorted.contains(mapping[k]));
        let j = choose|j: int| 0 <= j < sorted.len() && sorted[j] == mapping[k];
        assert(sorted[j].1 == j);
    }
}

/// Where `p` is the first position of `sorted` whose target is above `x`'s,
/// putting `x` by target is putting it at `p`.
proof fn lemma_insert_target_at(sorted: Seq<(usize, usize)>, x: (usize, usize), p: int)
    requires
        0 <= p <= sorted.len(),
        forall|j: int| 0 <= j < p ==> !(x.1 < (#[trigger] sorted[j]).1),
        p < sorted.len() ==> x.1 < sorted[p].1,
    ensures
        insert_by_target(sorted, x) == sorted.take(p) + seq![x] + sorted.skip(p),
    decreases sorted.len(),
{
    if sorted.len() == 0 {
        assert(sorted.take(p) + seq![x] + sorted.skip(p) =~= seq![x]);
    } else if p == 0 {
        assert(sorted.take(p) + seq![x] + sorted.skip(p) =~= seq![x] + sorted);
    } else {
        assert(!(x.1 < sorted[0].1));
        let rest = sorted.drop_first();
        assert forall|j: int| 0 <= j < p - 1 implies !(x.1 < (#[trigger] rest[j]).1) by {
            assert(rest[j] == sorted[j + 1]);
        }
        lemma_insert_target_at(rest, x, p - 1);
        assert(sorted.take(p) + seq![x] + sorted.skip(p) =~= seq![sorted[0]] + (rest.take(p - 1) + seq![x]
            + rest.skip(p - 1)));
    }
}

/// The pairs of `mapping` sorted by target, pairs with the same target in
/// their order.
fn sort_mapping(mapping: &Vec<(usize, usize)>) -> (sorted: Vec<(usize, usize)>)
    ensures
        sorted@ == sort_by_target(mapping@),
{
    let mut sorted: Vec<(usize, usize)> = Vec::new();
    let n = mapping.len();
    let mut i: usize = 0;
    while i < n
        invariant
            n == mapping@.len(),
            i <= n,
            sorted@ == sort_by_target(mapping@.take(i as int)),
        decreases n - i,
    {
        let x = mapping[i];
        let len = sorted.len();
        let mut p: usize = 0;
        while p < len && !(x.1 < sorted[p].1)
            invariant
                len == sorted@.len(),
                p <= len,
                forall|j: int| 0 <= j < p ==> !(x.1 < (#[trigger] sorted@[j]).1),
            decreases len - p,
        {
            p += 1;
        }
        proof {
            assert(mapping@.take(i + 1).drop_last() =~= mapping@.take(i as int));
            lemma_insert_target_at(sorted@, x, p as int);
        }
        sorted.insert(p, x);
        i += 1;
    }
    assert(mapping@.take(n as int) =~= mapping@);
    sorted
}

impl<P> Children<P> {
    /// Rebuilds the list of render elements: the pairs `(f, s)` of `mapping`
    /// are sorted by target `s` (pairs with the same target keep their
    /// order), then for each in turn the element at position `f` is inserted
    /// at position `s` of the new list; elements that no pair names are
    /// dropped. Only for a level that holds no state; each source is named
    /// once, and each insertion is at a position that the new list has.
    pub fn swap_elements(&mut self, mapping: Vec<(usize, usize)>)
        requires
            old(self).states@.len() == 0,
            sources_distinct(mapping@, old(self).renders@.len() as int),
            inserts_fit(sort_by_target(mapping@)),
        ensures
            final(self).renders@ == placed(old(self).renders@, sort_by_target(mapping@)),
            final(self).states@ == old(self).states@,
            final(self).memoizees@ == old(self).memoizees@,
    {
        let n = self.renders.len();
        let mut slots: Vec<Option<Element<P>>> = Vec::new();
        let mut j: usize = 0;
        while j < n
            invariant
                n == old(self).renders@.len(),
                j <= n,
                self.renders@ == old(self).renders@.take(n - j),
                slots@.len() == j,
                forall|i: int| 0 <= i < j ==> #[trigger] slots@[i] == Some(old(self).renders@[n - 1 - i]),
                self.states@ == old(self).states@,
                self.memoizees@ == old(self).memoizees@,
            decreases n - j,
        {
            let e = self.renders.pop().unwrap();
            slots.push(Some(e));
            j += 1;
        }
        let sorted = sort_mapping(&mapping);
        proof {
            lemma_sort_by_target(mapping@, n as int);
        }
        let m = sorted.len();
        let mut renders: Vec<Element<P>> = Vec::new();
        let mut t: usize = 0;
        while t < m
            invariant
                n == old(self).renders@.len(),
                m == sorted@.len(),
                sorted@ == sort_by_target(mapping@),
                sources_distinct(sorted@, n as int),
                inserts_fit(sorted@),
                t <= m,
                slots@.len() == n,
                renders@.len() == t,
                renders@ == placed(old(self).renders@, sorted@.take(t as int)),
                forall|k: int|
                    t <= k < m ==> slots@[n - 1 - (#[trigger] sorted@[k]).0] == Some(
                        old(self).renders@[sorted@[k].0 as int],
                    ),
                self.states@ == old(self).states@,
                self.memoizees@ == old(self).memoizees@,
            decreases m - t,
        {
            let (f, s) = sorted[t];
            assert(sorted@[t as int].1 <= t);
            let e = slots[n - 1 - f].take().unwrap();
            renders.insert(s, e);
            proof {
                assert(sorted@.take(t + 1).drop_last() =~= sorted@.take(t as int));
                assert forall|k: int| t + 1 <= k < m implies slots@[n - 1 - (#[trigger] sorted@[k]).0]
                    == Some(old(self).renders@[sorted@[k].0 as int]) by {
                    assert(sorted@[k].0 != sorted@[t as int].0);
                }
            }
            t += 1;
        }
        assert(sorted@.take(m as int) =~= sorted@);
        self.renders = renders;
    }
}

impl<P> Element<P> {
    /// The identity of the element.
    pub fn id(&self) -> (id: ElementId)
        ensures
            id == self.state.id,
    {
        self.state.id
    }

    /// Asks for a layout of the element (unless a layout callback of it is
    /// running).
    pub fn request_layout(&mut self)
        ensures
            final(self).state == (ElementState {
                needs_layout: old(self).state.needs_layout || !old(self).state.doing_this_layout_with_callback,
                ..old(self).state
            }),
            final(self).key == old(self).key,
            final(self).local_key == old(self).local_key,
            final(self).dead == old(self).dead,
            final(self).children == old(self).children,
    {
        self.state.mark_needs_layout();
    }

    /// Marks the element dead: the end of the pass drops it.
    pub fn mark_dead(&mut self)
        ensures
            *final(self) == (Element { dead: true, ..*old(self) }),
    {
        self.dead = true;
    }

    /// Replaces the key of the element among its siblings.
    pub fn set_local_key(&mut self, local_key: LocalKey)
        ensures
            *final(self) == (Element { local_key, ..*old(self) }),
    {
        self.local_key = local_key;
    }

    /// Whether the element needs a layout.
    pub fn needs_layout(&self) -> (b: bool)
        ensures
            b == self.state.needs_layout,
    {
        self.state.needs_layout
    }

    /// Whether the element or a descendant asked for an update.
    pub fn needs_update(&self) -> (b: bool)
        ensures
            b == self.state.request_update,
    {
        self.state.request_update
    }

    /// Forgets the element's request for an update.
    pub fn clear_needs_update(&mut self)
        ensures
            *final(self) == (Element {
                state: ElementState { request_update: false, ..old(self).state },
                ..*old(self)
            }),
    {
        self.state.request_update = false;
    }

    /// Shows or hides the element.
    pub fn set_visible(&mut self, visible: bool)
        ensures
            *final(self) == (Element { state: ElementState { visible, ..old(self).state }, ..*old(self) }),
    {
        self.state.visible = visible;
    }
}

/// The position of the first state in `path` that already requests an
/// update, or the length of `path` when none does.
pub open spec fn first_requesting(path: Seq<ElementState>, from: int) -> int
    decreases path.len() - from,
{
    if from < 0 || from >= path.len() {
        path.len() as int
    } else if path[from].request_update {
        from
    } else {
        first_requesting(path, from + 1)
    }
}

proof fn lemma_first_requesting_bounds(path: Seq<ElementState>, from: int)
    requires
        0 <= from <= path.len(),
    ensures
        from <= first_requesting(path, from) <= path.len(),
        forall|i: int| from <= i < first_requesting(path, from) ==> !(#[trigger] path[i]).request_update,
        first_requesting(path, from) < path.len() ==> path[first_requesting(path, from)].request_update,
    decreases path.len() - from,
{
    if from < path.len() && !path[from].request_update {
        lemma_first_requesting_bounds(path, from + 1);
    }
}

/// Asks for an update of an element and its ancestors: `path` holds the
/// states of the element, its parent, and so on up to the root. Each state
/// asks for an update, up to the first one that already does (which, with
/// those above it, is left as it is).
pub fn request_update(path: &mut Vec<ElementState>)
    ensures
        final(path)@.len() == old(path)@.len(),
        forall|i: int|
            0 <= i < old(path)@.len() ==> #[trigger] final(path)@[i] == if i < first_requesting(
                old(path)@,
                0,
            ) {
                ElementState { request_update: true, ..old(path)@[i] }
            } else {
                old(path)@[i]
            },
{
    proof {
        lemma_first_requesting_bounds(path@, 0);
    }
    let ghost stop = first_requesting(path@, 0);
    let n = path.len();
    let mut i: usize = 0;
    while i < n
        invariant
            n == old(path)@.len(),
            n == path@.len(),
            i <= n,
            stop == first_requesting(old(path)@, 0),
            0 <= stop <= n,
            i <= stop,
            forall|l: int| 0 <= l < stop ==> !(#[trigger] old(path)@[l]).request_update,
            stop < n ==> old(path)@[stop].request_update,
            forall|l: int|
                0 <= l < n ==> #[trigger] path@[l] == if l < i {
                    ElementState { request_update: true, ..old(path)@[l] }
                } else {
                    old(path)@[l]
                },
        decreases n - i,
    {
        if path[i].request_update {
            return;
        }
        path[i].request_update = true;
        i += 1;
    }
}

} // verus!
