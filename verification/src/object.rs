//! The interfaces between the tree and the render objects it holds.
use vstd::prelude::*;

use vstd::std_specs::cmp::PartialEqSpec;

use crate::tree::ElementState;

verus! {

/// A render object built from properties `Props`: created from the first
/// properties, then updated with each new set.
pub trait Render<Props>: Sized {
    fn create(props: Props) -> Self;

    fn update(&mut self, props: Props);
}

/// Data that a parent keeps on each of its children for its own layout.
pub trait AnyParentData {
    /// Whether two pieces of parent data are the same.
    fn eql(&self, other: &Self) -> bool;
}

/// Whether setting the parent data of a child from `old` to `new` changes it:
/// setting or removing it does; replacing it does when the two differ.
pub fn parent_data_changed<D: PartialEq>(old: &Option<D>, new: &Option<D>) -> (changed: bool)
    requires
        D::obeys_eq_spec(),
    ensures
        changed == match (old, new) {
            (None, None) => false,
            (Some(l), Some(r)) => !l.eq_spec(r),
            _ => true,
        },
{
    match (old, new) {
        (None, None) => false,
        (Some(l), Some(r)) => !(l == r),
        _ => true,
    }
}

/// Runs `callback` on the layout state of an element while the element is
/// marked as running a layout callback, so that the changes that the callback
/// makes to its children do not ask for another layout of it.
///
/// The callback gets the state with the mark set and hands back the new state
/// beside its result; the mark is cleared afterwards.
pub fn invoke_layout_callback<R, F: FnOnce(ElementState) -> (ElementState, R)>(
    state: &mut ElementState,
    callback: F,
) -> (r: R)
    requires
        call_requires(
            callback,
            (ElementState { doing_this_layout_with_callback: true, ..*old(state) },),
        ),
    ensures
        exists|s: ElementState|
            call_ensures(
                callback,
                (ElementState { doing_this_layout_with_callback: true, ..*old(state) },),
                (s, r),
            ) && *final(state) == (ElementState { doing_this_layout_with_callback: false, ..s }),
{
    state.doing_this_layout_with_callback = true;
    let (after, ret) = callback(*state);
    *state = after;
    state.doing_this_layout_with_callback = false;
    ret
}

} // verus!
