//! Layout constraints of either kind: for a box or for a sliver.
use vstd::prelude::*;

verus! {

/// The constraints that a parent hands to a child for layout: box
/// constraints `B` or sliver constraints `S`.
#[derive(Clone, Copy, Debug)]
pub enum Constraints<B, S> {
    BoxConstraints(B),
    SliverConstraints(S),
}

impl<B: Copy, S: Clone> Constraints<B, S> {
    /// The box constraints; the constraints must be box constraints.
    pub fn to_box(&self) -> (bc: B)
        requires
            self is BoxConstraints,
        ensures
            bc == self->BoxConstraints_0,
    {
        match self {
            Constraints::BoxConstraints(bc) => *bc,
            Constraints::SliverConstraints(_) => vstd::pervasive::unreached(),
        }
    }

    /// A copy of the sliver constraints; the constraints must be sliver
    /// constraints.
    pub fn to_sliver(&self) -> (sc: S)
        requires
            self is SliverConstraints,
        ensures
            cloned(self->SliverConstraints_0, sc),
    {
        match self {
            Constraints::BoxConstraints(_) => vstd::pervasive::unreached(),
            Constraints::SliverConstraints(sc) => sc.clone(),
        }
    }
}

} // verus!
