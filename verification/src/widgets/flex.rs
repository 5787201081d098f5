//! A widget that lays its children out in a row or a column.
use vstd::prelude::*;

use crate::style::layout::{
    Axis, CrossAxisAlignment, MainAxisAlignment, MainAxisSize, TextDirection, VerticalDirection,
};

verus! {

/// The properties of a flex.
#[derive(Debug, Clone, Copy, PartialEq, Eq, Structural)]
pub struct Flex {
    pub direction: Axis,
    pub main_axis_size: MainAxisSize,
    pub main_axis_alignment: MainAxisAlignment,
    pub cross_axis_alignment: CrossAxisAlignment,
    pub text_direction: TextDirection,
    pub vertical_direction: VerticalDirection,
}

impl Flex {
    pub fn new(
        direction: Axis,
        main_axis_size: MainAxisSize,
        main_axis_alignment: MainAxisAlignment,
        cross_axis_alignment: CrossAxisAlignment,
        text_direction: TextDirection,
        vertical_direction: VerticalDirection,
    ) -> (f: Flex)
        ensures
            f == (Flex {
                direction,
                main_axis_size,
                main_axis_alignment,
                cross_axis_alignment,
                text_direction,
                vertical_direction,
            }),
    {
        Flex {
            direction,
            main_axis_size,
            main_axis_alignment,
            cross_axis_alignment,
            text_direction,
            vertical_direction,
        }
    }
}

/// The render object of a flex: the properties it lays its children out
/// with.
#[derive(Debug, Clone, Copy, PartialEq, Eq, Structural)]
pub struct RenderFlex {
    pub direction: Axis,
    pub main_axis_size: MainAxisSize,
    pub main_axis_alignment: MainAxisAlignment,
    pub cross_axis_alignment: CrossAxisAlignment,
    pub text_direction: TextDirection,
    pub vertical_direction: VerticalDirection,
}

/// The render object that `create` builds from `props`.
pub open spec fn render_flex_of(props: Flex) -> RenderFlex {
    RenderFlex {
        direction: props.direction,
        main_axis_size: props.main_axis_size,
        main_axis_alignment: props.main_axis_alignment,
        cross_axis_alignment: props.cross_axis_alignment,
        text_direction: props.text_direction,
        vertical_direction: props.vertical_direction,
    }
}

/// Whether the start of `direction` is its top or left end, when the text
/// or vertical direction that decides it is known.
pub open spec fn start_top_left(
    direction: Axis,
    text_direction: Option<TextDirection>,
    vertical_direction: Option<VerticalDirection>,
) -> Option<bool> {
    match direction {
        Axis::Horizontal => match text_direction {
            Some(TextDirection::Ltr) => Some(true),
            Some(TextDirection::Rtl) => Some(false),
            None => None,
        },
        Axis::Vertical => match vertical_direction {
            Some(VerticalDirection::Down) => Some(true),
            Some(VerticalDirection::Up) => Some(false),
            None => None,
        },
    }
}

/// A fraction `num / den` of the space that the children leave free.
#[derive(Debug, Clone, Copy, PartialEq, Eq, Structural)]
pub struct Share {
    pub num: u128,
    pub den: u128,
}

/// The free space before the first child and between two children.
#[derive(Debug, Clone, Copy, PartialEq, Eq, Structural)]
pub struct MainAxisSpacing {
    pub leading: Share,
    pub between: Share,
}

/// The spacing that `alignment` gives `n` children: at the start, at the
/// end or around the middle for the first three; for the last three, the
/// free space goes between the children, around each of them, or evenly
/// between and around them.
pub open spec fn spacing_of(alignment: MainAxisAlignment, n: nat) -> MainAxisSpacing {
    let none = Share { num: 0, den: 1 };
    match alignment {
        MainAxisAlignment::Start => MainAxisSpacing { leading: none, between: none },
        MainAxisAlignment::End => MainAxisSpacing { leading: Share { num: 1, den: 1 }, between: none },
        MainAxisAlignment::Center => MainAxisSpacing {
            leading: Share { num: 1, den: 2 },
            between: none,
        },
        MainAxisAlignment::SpaceBetween => MainAxisSpacing {
            leading: none,
            between: if n > 1 {
                Share { num: 1, den: (n - 1) as u128 }
            } else {
                none
            },
        },
        MainAxisAlignment::SpaceAround => if n > 0 {
            MainAxisSpacing {
                leading: Share { num: 1, den: (2 * n) as u128 },
                between: Share { num: 1, den: n as u128 },
            }
        } else {
            MainAxisSpacing { leading: none, between: none }
        },
        MainAxisAlignment::SpaceEvenly => if n > 0 {
            MainAxisSpacing {
                leading: Share { num: 1, den: (n + 1) as u128 },
                between: Share { num: 1, den: (n + 1) as u128 },
            }
        } else {
            MainAxisSpacing { leading: none, between: none }
        },
    }
}

impl RenderFlex {
    /// The render object for `props`.
    pub fn create(props: Flex) -> (r: RenderFlex)
        ensures
            r == render_flex_of(props),
    {
        RenderFlex {
            direction: props.direction,
            main_axis_size: props.main_axis_size,
            main_axis_alignment: props.main_axis_alignment,
            cross_axis_alignment: props.cross_axis_alignment,
            text_direction: props.text_direction,
            vertical_direction: props.vertical_direction,
        }
    }

    /// Takes new properties; returns whether they differ from the current
    /// ones, in which case the flex needs a layout.
    pub fn update(&mut self, props: Flex) -> (relayout: bool)
        ensures
            *final(self) == render_flex_of(props),
            relayout == (*old(self) != render_flex_of(props)),
    {
        let r = RenderFlex::create(props);
        if *self != r {
            *self = r;
            true
        } else {
            false
        }
    }

    /// Whether the start of `direction` is its top or left end: for a row
    /// the text direction decides, for a column the vertical direction;
    /// `None` when the deciding direction is not given.
    pub fn start_is_top_left(
        &self,
        direction: Axis,
        text_direction: Option<TextDirection>,
        vertical_direction: Option<VerticalDirection>,
    ) -> (r: Option<bool>)
        ensures
            r == start_top_left(direction, text_direction, vertical_direction),
    {
        match (direction, text_direction, vertical_direction) {
            (Axis::Horizontal, Some(TextDirection::Ltr), _) => Some(true),
            (Axis::Horizontal, Some(TextDirection::Rtl), _) => Some(false),
            (Axis::Vertical, _, Some(VerticalDirection::Down)) => Some(true),
            (Axis::Vertical, _, Some(VerticalDirection::Up)) => Some(false),
            (_, _, _) => None,
        }
    }

    /// Whether the children are placed from the end of the main axis: when
    /// its start is not the top or left end.
    pub fn flip_main_axis(&self) -> (b: bool)
        ensures
            b == (start_top_left(self.direction, Some(self.text_direction), Some(self.vertical_direction))
                == Some(false)),
    {
        match self.start_is_top_left(
            self.direction,
            Some(self.text_direction),
            Some(self.vertical_direction),
        ) {
            Some(v) => !v,
            None => false,
        }
    }

    /// For the start and end cross alignments, whether a child sits at the
    /// top or left edge of the cross axis (rather than against the other
    /// edge).
    pub fn cross_at_top_left(&self) -> (b: bool)
        ensures
            b == (start_top_left(
                if self.direction is Horizontal {
                    Axis::Vertical
                } else {
                    Axis::Horizontal
                },
                Some(self.text_direction),
                Some(self.vertical_direction),
            ) == Some(self.cross_axis_alignment == CrossAxisAlignment::Start)),
    {
        let at_start = self.cross_axis_alignment == CrossAxisAlignment::Start;
        match self.start_is_top_left(
            self.direction.flip(),
            Some(self.text_direction),
            Some(self.vertical_direction),
        ) {
            Some(v) => v == at_start,
            None => false,
        }
    }

    /// The share of the free main-axis space before the first child and
    /// between two children, for `child_count` children.
    pub fn main_axis_spacing(&self, child_count: usize) -> (s: MainAxisSpacing)
        ensures
            s == spacing_of(self.main_axis_alignment, child_count as nat),
            child_count >= 1 && self.main_axis_alignment is SpaceEvenly ==> s.leading.num
                * s.between.den == s.between.num * s.leading.den && (child_count + 1) * s.leading.num
                == s.leading.den,
            child_count >= 1 && self.main_axis_alignment is SpaceAround ==> s.between.num
                * s.leading.den == 2 * s.leading.num * s.between.den && 2 * child_count
                * s.leading.num == s.leading.den,
            child_count >= 2 && self.main_axis_alignment is SpaceBetween ==> s.leading.num == 0
                && (child_count - 1) * s.between.num == s.between.den,
    {
        proof {
            if child_count >= 1 {
                lemma_spacing_shares(self.main_axis_alignment, child_count as nat);
            }
        }
        let none = Share { num: 0, den: 1 };
        let n = child_count as u128;
        match self.main_axis_alignment {
            MainAxisAlignment::Start => MainAxisSpacing { leading: none, between: none },
            MainAxisAlignment::End => MainAxisSpacing { leading: Share { num: 1, den: 1 }, between: none },
            MainAxisAlignment::Center => MainAxisSpacing {
                leading: Share { num: 1, den: 2 },
                between: none,
            },
            MainAxisAlignment::SpaceBetween => MainAxisSpacing {
                leading: none,
                between: if n > 1 {
                    Share { num: 1, den: n - 1 }
                } else {
                    none
                },
            },
            MainAxisAlignment::SpaceAround => if n > 0 {
                MainAxisSpacing {
                    leading: Share { num: 1, den: 2 * n },
                    between: Share { num: 1, den: n },
                }
            } else {
                MainAxisSpacing { leading: none, between: none }
            },
            MainAxisAlignment::SpaceEvenly => if n > 0 {
                MainAxisSpacing {
                    leading: Share { num: 1, den: n + 1 },
                    between: Share { num: 1, den: n + 1 },
                }
            } else {
                MainAxisSpacing { leading: none, between: none }
            },
        }
    }
}

/// The share of the free space that the spaces before the first of `n`
/// children and between them take, as a numerator over
/// `spacing_denominator`.
pub open spec fn spacing_numerator(s: MainAxisSpacing, n: nat) -> int {
    s.leading.num * s.between.den + (n - 1) * s.between.num * s.leading.den
}

/// The denominator of `spacing_numerator`.
pub open spec fn spacing_denominator(s: MainAxisSpacing) -> int {
    s.leading.den * s.between.den
}

/// The space before the first child and between the children never takes
/// more than the free space, and takes all of it for the end alignment and
/// for space-between with two children or more.
pub proof fn lemma_spacing_fits(alignment: MainAxisAlignment, n: nat)
    requires
        n >= 1,
        2 * n <= u128::MAX,
    ensures
        spacing_of(alignment, n).leading.den > 0,
        spacing_of(alignment, n).between.den > 0,
        spacing_numerator(spacing_of(alignment, n), n) <= spacing_denominator(spacing_of(alignment, n)),
        alignment is End || (alignment is SpaceBetween && n > 1) ==> spacing_numerator(
            spacing_of(alignment, n),
            n,
        ) == spacing_denominator(spacing_of(alignment, n)),
{
    let s = spacing_of(alignment, n);
    let (ln, ld, bn, bd) = (s.leading.num as int, s.leading.den as int, s.between.num as int, s.between.den as int);
    assert(spacing_numerator(s, n) == ln * bd + (n - 1) * bn * ld);
    assert(spacing_denominator(s) == ld * bd);
    match alignment {
        MainAxisAlignment::SpaceAround => {
            assert(ln * bd + (n - 1) * bn * ld <= ld * bd) by (nonlinear_arith)
                requires
                    n >= 1,
                    ln == 1,
                    bn == 1,
                    ld == 2 * n,
                    bd == n,
            ;
        },
        MainAxisAlignment::SpaceEvenly => {
            assert(ln * bd + (n - 1) * bn * ld <= ld * bd) by (nonlinear_arith)
                requires
                    n >= 1,
                    ln == 1,
                    bn == 1,
                    ld == n + 1,
                    bd == n + 1,
            ;
        },
        MainAxisAlignment::SpaceBetween => {
            if n <= 1 {
                assert(ln * bd + (n - 1) * bn * ld <= ld * bd) by (nonlinear_arith)
                    requires
                        ln == 0,
                        bn == 0,
                        ld == 1,
                        bd == 1,
                ;
            }
            if n > 1 {
                assert(ln * bd + (n - 1) * bn * ld == ld * bd) by (nonlinear_arith)
                    requires
                        ln == 0,
                        bn == 1,
                        ld == 1,
                        bd == n - 1,
                ;
            }
        },
        MainAxisAlignment::Start => {
            assert(ln * bd + (n - 1) * bn * ld <= ld * bd) by (nonlinear_arith)
                requires
                    ln == 0,
                    bn == 0,
                    ld == 1,
                    bd == 1,
            ;
        },
        MainAxisAlignment::End => {
            assert(ln * bd + (n - 1) * bn * ld == ld * bd) by (nonlinear_arith)
                requires
                    ln == 1,
                    bn == 0,
                    ld == 1,
                    bd == 1,
            ;
        },
        MainAxisAlignment::Center => {
            assert(ln * bd + (n - 1) * bn * ld <= ld * bd) by (nonlinear_arith)
                requires
                    ln == 1,
                    bn == 0,
                    ld == 2,
                    bd == 1,
            ;
        },
    }
}

/// How each alignment shares the free main-axis space among `n` children,
/// with shares compared as fractions (`a / b == c / d` as `a * d == c * b`):
/// the start alignment leaves no space before or between the children; the
/// end alignment puts all of it before them; the center alignment puts half
/// of it before them and the other half after; space-between puts none
/// before and splits all of it equally between the children (none at all
/// for a single child); space-around puts twice as much between two
/// children as before the first (and as after the last) and uses all of it;
/// space-evenly puts the same share before, between and after the children
/// and uses all of it, `1 / (n + 1)` each.
pub proof fn lemma_spacing_shares(alignment: MainAxisAlignment, n: nat)
    requires
        n >= 1,
        2 * n <= u128::MAX,
    ensures
        ({
            let s = spacing_of(alignment, n);
            let (ln, ld, bn, bd) = (s.leading.num as int, s.leading.den as int, s.between.num as int, s.between.den as int);
            &&& ld > 0 && bd > 0
            &&& alignment is Start ==> ln == 0 && bn == 0
            &&& alignment is End ==> ln == ld && bn == 0
            &&& alignment is Center ==> 2 * ln == ld && bn == 0
            &&& alignment is SpaceBetween ==> ln == 0 && (n > 1 ==> (n - 1) * bn == bd) && (n == 1 ==> bn
                == 0)
            &&& alignment is SpaceAround ==> bn * ld == 2 * ln * bd && 2 * n * ln == ld
            &&& alignment is SpaceEvenly ==> ln * bd == bn * ld && (n + 1) * ln == ld
        }),
{
    let s = spacing_of(alignment, n);
    match alignment {
        MainAxisAlignment::SpaceAround => {
            assert(s.between.num * s.leading.den == 2 * s.leading.num * s.between.den) by (nonlinear_arith)
                requires
                    s.leading.num == 1,
                    s.between.num == 1,
                    s.leading.den == 2 * n,
                    s.between.den == n,
            ;
        },
        MainAxisAlignment::SpaceEvenly => {
            assert(s.leading.num * s.between.den == s.between.num * s.leading.den) by (nonlinear_arith)
                requires
                    s.leading.num == 1,
                    s.between.num == 1,
                    s.leading.den == s.between.den,
            ;
        },
        MainAxisAlignment::SpaceBetween => {
            if n > 1 {
                assert((n - 1) * s.between.num == s.between.den) by (nonlinear_arith)
                    requires
                        s.between.num == 1,
                        s.between.den == n - 1,
                ;
            }
        },
        _ => {},
    }
}

} // verus!
