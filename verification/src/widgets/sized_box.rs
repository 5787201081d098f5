//! A widget with predefined size.
use vstd::prelude::*;

verus! {

/// A widget with predefined size, over lengths of type `L`.
///
/// If given a child, this widget forces its child to have a specific width
/// and/or height (assuming values are permitted by this widget's parent).
/// If either the width or height is not set, this widget will size itself to
/// match the child's size in that dimension.
///
/// If not given a child, the box tries to size itself as close to the
/// specified height and width as possible given the parent's constraints;
/// a width or height that is not set (`None`) counts as zero.
pub struct SizedBox<L> {
    pub width: Option<L>,
    pub height: Option<L>,
    pub min_width: L,
    pub max_width: L,
    pub min_height: L,
    pub max_height: L,
    pub clip: bool,
}

impl<L> SizedBox<L> {
    /// A sized box with the given bounds, clipping its content, and with
    /// both width and height not set: the box takes its child's size in
    /// each dimension.
    pub fn new(
        _width: L,
        _height: L,
        min_width: L,
        max_width: L,
        min_height: L,
        max_height: L,
    ) -> (b: SizedBox<L>)
        ensures
            b == (SizedBox {
                width: None,
                height: None,
                min_width,
                max_width,
                min_height,
                max_height,
                clip: true,
            }),
    {
        SizedBox { width: None, height: None, min_width, max_width, min_height, max_height, clip: true }
    }

    /// The box, clipping its content.
    pub fn clip(self) -> (b: SizedBox<L>)
        ensures
            b == (SizedBox { clip: true, ..self }),
    {
        SizedBox { clip: true, ..self }
    }
}

/// The render object of a sized box.
pub struct SizedBoxObject<L> {
    pub props: SizedBox<L>,
}

impl<L> SizedBoxObject<L> {
    /// The render object for `props`.
    pub fn create(props: SizedBox<L>) -> (o: SizedBoxObject<L>)
        ensures
            o.props == props,
    {
        SizedBoxObject { props }
    }
}

} // verus!
