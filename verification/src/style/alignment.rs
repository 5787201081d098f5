//! Alignment of content inside its parent.
use vstd::prelude::*;

use super::utils::{byte_views, first_keyword, lemma_first_keyword_bounds, parse_keyword};

verus! {

/// Vertical placement of content.
#[derive(Debug, Clone, Copy, PartialEq, Eq, Structural)]
pub enum VerticalAlignment {
    Bottom,
    Center,
    Top,
}

impl Default for VerticalAlignment {
    fn default() -> (r: Self)
        ensures
            r == VerticalAlignment::Top,
    {
        VerticalAlignment::Top
    }
}

/// Horizontal placement of content.
#[derive(Debug, Clone, Copy, PartialEq, Eq, Structural)]
pub enum HorizontalAlignment {
    Start,
    End,
    Center,
}

impl Default for HorizontalAlignment {
    fn default() -> (r: Self)
        ensures
            r == HorizontalAlignment::Start,
    {
        HorizontalAlignment::Start
    }
}

/// Alignment of the lines of a text.
#[derive(Debug, Clone, Copy, PartialEq, Eq, Structural)]
pub enum TextAlignment {
    /// The left edge in left-to-right scripts, the right edge in right-to-left ones.
    Start,
    /// The right edge in left-to-right scripts, the left edge in right-to-left ones.
    End,
    Center,
    Justified,
}

impl Default for TextAlignment {
    fn default() -> (r: Self)
        ensures
            r == TextAlignment::Start,
    {
        TextAlignment::Start
    }
}

/// The names that `parse_text_alignment` recognises, in the order in which it tries
/// them: Start, End, Center, Justified.
pub open spec fn parse_text_alignment_names() -> Seq<Seq<u8>> {
    seq![
        seq![83u8, 116u8, 97u8, 114u8, 116u8],
        seq![69u8, 110u8, 100u8],
        seq![67u8, 101u8, 110u8, 116u8, 101u8, 114u8],
        seq![74u8, 117u8, 115u8, 116u8, 105u8, 102u8, 105u8, 101u8, 100u8]
    ]
}

/// The value named by the `i`-th of the names of `parse_text_alignment`.
pub open spec fn parse_text_alignment_value(i: int) -> TextAlignment {
    if i == 0 {
        TextAlignment::Start
    } else if i == 1 {
        TextAlignment::End
    } else if i == 2 {
        TextAlignment::Center
    } else {
        TextAlignment::Justified
    }
}

fn parse_text_alignment_name_list() -> (v: Vec<Vec<u8>>)
    ensures
        byte_views(v@) == parse_text_alignment_names(),
{
    let v = vec![
        vec![83u8, 116u8, 97u8, 114u8, 116u8],
        vec![69u8, 110u8, 100u8],
        vec![67u8, 101u8, 110u8, 116u8, 101u8, 114u8],
        vec![74u8, 117u8, 115u8, 116u8, 105u8, 102u8, 105u8, 101u8, 100u8]
    ];
    assert(byte_views(v@) =~= parse_text_alignment_names());
    v
}

/// Parses a text alignment.
///
/// The input must start with one of the names (Start, End, Center, Justified), in any ASCII
/// case; the first that matches, in that order, is taken. Returns the
/// number of bytes consumed and the value.
pub fn parse_text_alignment(input: &[u8]) -> (r: Option<(usize, TextAlignment)>)
    ensures
        r == (match first_keyword(input@, parse_text_alignment_names(), 0) {
            Some(i) => Some((parse_text_alignment_names()[i].len() as usize, parse_text_alignment_value(i))),
            None => None,
        }),
{
    let names = parse_text_alignment_name_list();
    match parse_keyword(input, &names) {
        Some(i) => {
            proof {
                lemma_first_keyword_bounds(input@, parse_text_alignment_names(), 0);
            }
            assert(byte_views(names@)[i as int] == names@[i as int]@);
            let value = match i {
        0 => TextAlignment::Start,
        1 => TextAlignment::End,
        2 => TextAlignment::Center,
                _ => TextAlignment::Justified,
            };
            Some((names[i].len(), value))
        },
        None => None,
    }
}

/// The names that `parse_horizontal_alignment` recognises, in the order in which it tries
/// them: Start, End, Center.
pub open spec fn parse_horizontal_alignment_names() -> Seq<Seq<u8>> {
    seq![
        seq![83u8, 116u8, 97u8, 114u8, 116u8],
        seq![69u8, 110u8, 100u8],
        seq![67u8, 101u8, 110u8, 116u8, 101u8, 114u8]
    ]
}

/// The value named by the `i`-th of the names of `parse_horizontal_alignment`.
pub open spec fn parse_horizontal_alignment_value(i: int) -> HorizontalAlignment {
    if i == 0 {
        HorizontalAlignment::Start
    } else if i == 1 {
        HorizontalAlignment::End
    } else {
        HorizontalAlignment::Center
    }
}

fn parse_horizontal_alignment_name_list() -> (v: Vec<Vec<u8>>)
    ensures
        byte_views(v@) == parse_horizontal_alignment_names(),
{
    let v = vec![
        vec![83u8, 116u8, 97u8, 114u8, 116u8],
        vec![69u8, 110u8, 100u8],
        vec![67u8, 101u8, 110u8, 116u8, 101u8, 114u8]
    ];
    assert(byte_views(v@) =~= parse_horizontal_alignment_names());
    v
}

/// Parses a horizontal alignment.
///
/// The input must start with one of the names (Start, End, Center), in any ASCII
/// case; the first that matches, in that order, is taken. Returns the
/// number of bytes consumed and the value.
pub fn parse_horizontal_alignment(input: &[u8]) -> (r: Option<(usize, HorizontalAlignment)>)
    ensures
        r == (match first_keyword(input@, parse_horizontal_alignment_names(), 0) {
            Some(i) => Some((parse_horizontal_alignment_names()[i].len() as usize, parse_horizontal_alignment_value(i))),
            None => None,
        }),
{
    let names = parse_horizontal_alignment_name_list();
    match parse_keyword(input, &names) {
        Some(i) => {
            proof {
                lemma_first_keyword_bounds(input@, parse_horizontal_alignment_names(), 0);
            }
            assert(byte_views(names@)[i as int] == names@[i as int]@);
            let value = match i {
        0 => HorizontalAlignment::Start,
        1 => HorizontalAlignment::End,
                _ => HorizontalAlignment::Center,
            };
            Some((names[i].len(), value))
        },
        None => None,
    }
}

/// The names that `parse_vertical_alignment` recognises, in the order in which it tries
/// them: Bottom, Center, Top.
pub open spec fn parse_vertical_alignment_names() -> Seq<Seq<u8>> {
    seq![
        seq![66u8, 111u8, 116u8, 116u8, 111u8, 109u8],
        seq![67u8, 101u8, 110u8, 116u8, 101u8, 114u8],
        seq![84u8, 111u8, 112u8]
    ]
}

/// The value named by the `i`-th of the names of `parse_vertical_alignment`.
pub open spec fn parse_vertical_alignment_value(i: int) -> VerticalAlignment {
    if i == 0 {
        VerticalAlignment::Bottom
    } else if i == 1 {
        VerticalAlignment::Center
    } else {
        VerticalAlignment::Top
    }
}

fn parse_vertical_alignment_name_list() -> (v: Vec<Vec<u8>>)
    ensures
        byte_views(v@) == parse_vertical_alignment_names(),
{
    let v = vec![
        vec![66u8, 111u8, 116u8, 116u8, 111u8, 109u8],
        vec![67u8, 101u8, 110u8, 116u8, 101u8, 114u8],
        vec![84u8, 111u8, 112u8]
    ];
    assert(byte_views(v@) =~= parse_vertical_alignment_names());
    v
}

/// Parses a vertical alignment.
///
/// The input must start with one of the names (Bottom, Center, Top), in any ASCII
/// case; the first that matches, in that order, is taken. Returns the
/// number of bytes consumed and the value.
pub fn parse_vertical_alignment(input: &[u8]) -> (r: Option<(usize, VerticalAlignment)>)
    ensures
        r == (match first_keyword(input@, parse_vertical_alignment_names(), 0) {
            Some(i) => Some((parse_vertical_alignment_names()[i].len() as usize, parse_vertical_alignment_value(i))),
            None => None,
        }),
{
    let names = parse_vertical_alignment_name_list();
    match parse_keyword(input, &names) {
        Some(i) => {
            proof {
                lemma_first_keyword_bounds(input@, parse_vertical_alignment_names(), 0);
            }
            assert(byte_views(names@)[i as int] == names@[i as int]@);
            let value = match i {
        0 => VerticalAlignment::Bottom,
        1 => VerticalAlignment::Center,
                _ => VerticalAlignment::Top,
            };
            Some((names[i].len(), value))
        },
        None => None,
    }
}

} // verus!
