//! A placeholder element with nothing to show.
use vstd::prelude::*;

use crate::object::Render;

verus! {

/// The properties of a placeholder.
#[derive(Debug, Default, Clone, Copy, PartialEq, Eq, Structural)]
pub struct EmptyHolder;

/// The render object of a placeholder.
#[derive(Debug, Default, Clone, Copy, PartialEq, Eq, Structural)]
pub struct EmptyHolderObject;

impl Render<EmptyHolder> for EmptyHolderObject {
    fn create(props: EmptyHolder) -> (o: EmptyHolderObject) {
        EmptyHolderObject
    }

    fn update(&mut self, props: EmptyHolder) {
    }
}

} // verus!
