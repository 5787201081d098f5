//! The vocabulary of flex layout: axes, directions and alignments.
use vstd::prelude::*;

verus! {

/// A layout axis.
#[derive(Debug, Clone, Copy, PartialEq, Eq, Structural)]
pub enum Axis {
    Horizontal,
    Vertical,
}

impl Axis {
    /// The other axis.
    pub fn flip(self) -> (a: Axis)
        ensures
            a != self,
    {
        match self {
            Axis::Horizontal => Axis::Vertical,
            Axis::Vertical => Axis::Horizontal,
        }
    }
}

/// How much space a flex takes along its main axis.
#[derive(Debug, Clone, Copy, PartialEq, Eq, Structural)]
pub enum MainAxisSize {
    Min,
    Max,
}

/// How the children of a flex are placed along its main axis.
#[derive(Debug, Clone, Copy, PartialEq, Eq, Structural)]
pub enum MainAxisAlignment {
    Start,
    End,
    Center,
    SpaceBetween,
    SpaceAround,
    SpaceEvenly,
}

/// How the children of a flex are placed across its main axis.
#[derive(Debug, Clone, Copy, PartialEq, Eq, Structural)]
pub enum CrossAxisAlignment {
    Start,
    End,
    Center,
    Stretch,
    Baseline,
}

/// The direction in which text runs horizontally.
#[derive(Debug, Clone, Copy, PartialEq, Eq, Structural)]
pub enum TextDirection {
    Ltr,
    Rtl,
}

/// The direction in which children run vertically.
#[derive(Debug, Clone, Copy, PartialEq, Eq, Structural)]
pub enum VerticalDirection {
    Up,
    Down,
}

/// How a flexible child fills the space it is given.
#[derive(Debug, Clone, Copy, PartialEq, Eq, Structural)]
pub enum FlexFit {
    Tight,
    Loose,
}

} // verus!
