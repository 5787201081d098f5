//! Unique keys for the nodes that a UI pass visits.
use vstd::prelude::*;

verus! {

/// A key local to a list of siblings, given by the caller (for instance the
/// index of an item in a scrolling list).
pub type LocalKey = String;

/// A unique call location.
///
/// Every place in the program that builds a node has its own key; two keys
/// are equal exactly when they name the same location.
#[derive(Clone, Copy, Debug, PartialEq, Eq, Structural, Hash)]
pub struct Key {
    pub id: u64,
}

impl Key {
    /// The key of the call location with the given identity.
    pub fn new(id: u64) -> (key: Key)
        ensures
            key.id == id,
    {
        Key { id }
    }
}

} // verus!
