//! Colors in style sheets: the hex form `#rgb`, `#rgba`, `#rrggbb` or
//! `#rrggbbaa`.
use vstd::prelude::*;

use vstd::slice::slice_subrange;

verus! {

#[verifier::external_type_specification]
#[verifier::external_body]
pub struct ExColorParseError(piet::ColorParseError);

/// A color as 8-bit red, green, blue and alpha, red in the most significant
/// byte.
#[derive(Clone, Copy, Debug, PartialEq, Eq, Structural)]
pub struct Color(pub u32);

/// Whether `b` is an ASCII hex digit.
pub open spec fn is_hex_digit(b: u8) -> bool {
    (48 <= b <= 57) || (65 <= b <= 70) || (97 <= b <= 102)
}

/// The number of hex digits at the start of `s`.
pub open spec fn hex_run(s: Seq<u8>) -> nat
    decreases s.len(),
{
    if s.len() == 0 || !is_hex_digit(s[0]) {
        0
    } else {
        1 + hex_run(s.drop_first())
    }
}

/// The value of the hex digit `b`.
pub open spec fn hex_digit_value(b: u8) -> int {
    if 48 <= b <= 57 {
        b - 48
    } else if 65 <= b <= 70 {
        b - 55
    } else {
        b - 87
    }
}

/// The eight 4-bit channel digits (red, green, blue, alpha, two each) that
/// the hex digits `d` stand for: each digit twice for `rgb` and `rgba`, the
/// digits themselves for `rrggbb` and `rrggbbaa`, and an alpha of `ff`
/// where none is given; `None` for any other number of digits.
pub open spec fn channel_digits(d: Seq<u8>) -> Option<Seq<u8>> {
    if d.len() == 3 {
        Some(seq![d[0], d[0], d[1], d[1], d[2], d[2], 102u8, 102u8])
    } else if d.len() == 4 {
        Some(seq![d[0], d[0], d[1], d[1], d[2], d[2], d[3], d[3]])
    } else if d.len() == 6 {
        Some(d + seq![102u8, 102u8])
    } else if d.len() == 8 {
        Some(d)
    } else {
        None
    }
}

/// The number that the hex digits `c` write, most significant first.
pub open spec fn hex_number(c: Seq<u8>) -> int
    decreases c.len(),
{
    if c.len() == 0 {
        0
    } else {
        hex_number(c.drop_last()) * 16 + hex_digit_value(c.last())
    }
}

/// The color, as rgba, that the hex digits `digits` stand for; `None` when
/// they are not 3, 4, 6 or 8 digits.
pub open spec fn hex_color_value(digits: Seq<u8>) -> Option<u32> {
    match channel_digits(digits) {
        Some(c) => Some(hex_number(c) as u32),
        None => None,
    }
}

/// Reads the hex digits `digits` as a color with `piet::Color::from_hex_str`
/// and gives it as rgba (`as_rgba_u32`). By its source, hex digits are a
/// color exactly when there are 3, 4, 6 or 8 of them, and the color is the
/// one `hex_color_value` describes.
#[verifier::external_body]
fn color_from_hex(digits: &[u8]) -> (r: Result<u32, piet::ColorParseError>)
    requires
        forall|i: int| 0 <= i < digits@.len() ==> is_hex_digit(#[trigger] digits@[i]),
    ensures
        r is Ok <==> (digits@.len() == 3 || digits@.len() == 4 || digits@.len() == 6 || digits@.len()
            == 8),
        match r {
            Ok(v) => hex_color_value(digits@) == Some(v),
            Err(_) => hex_color_value(digits@) is None,
        },
{
    let text = std::str::from_utf8(digits).unwrap();
    piet::Color::from_hex_str(text).map(|c| c.as_rgba_u32())
}

/// What the hex form of a color at the start of `input` gives: `#` and the
/// longest run of hex digits after it (at least one), read as a color, with
/// the number of bytes taken; `None` when there is no such form or the
/// digits are not a color.
pub open spec fn hex_color_parse(input: Seq<u8>) -> Option<(usize, Color)> {
    if input.len() >= 1 && input[0] == 35 {
        let n = hex_run(input.skip(1));
        if n >= 1 {
            match hex_color_value(input.subrange(1, 1 + n as int)) {
                Some(v) => Some(((1 + n) as usize, Color(v))),
                None => None,
            }
        } else {
            None
        }
    } else {
        None
    }
}

proof fn lemma_hex_run(s: Seq<u8>, k: int)
    requires
        0 <= k <= s.len(),
        forall|i: int| 0 <= i < k ==> is_hex_digit(#[trigger] s[i]),
    ensures
        hex_run(s) == k + hex_run(s.skip(k)),
        hex_run(s) <= s.len(),
    decreases k,
{
    lemma_hex_run_len(s);
    if k > 0 {
        assert(s.drop_first().skip(k - 1) =~= s.skip(k));
        lemma_hex_run(s.drop_first(), k - 1);
    } else {
        assert(s.skip(0) =~= s);
    }
}

proof fn lemma_hex_run_len(s: Seq<u8>)
    ensures
        hex_run(s) <= s.len(),
        forall|i: int| 0 <= i < hex_run(s) ==> is_hex_digit(#[trigger] s[i]),
    decreases s.len(),
{
    if s.len() > 0 && is_hex_digit(s[0]) {
        lemma_hex_run_len(s.drop_first());
        assert forall|i: int| 0 <= i < hex_run(s) implies is_hex_digit(#[trigger] s[i]) by {
            if i > 0 {
                assert(s[i] == s.drop_first()[i - 1]);
            }
        }
    }
}

/// The hex form of a color at the start of `input`, and the number of
/// bytes it takes.
pub fn parse_hex_color(input: &[u8]) -> (r: Option<(usize, Color)>)
    ensures
        r == hex_color_parse(input@),
        r is Some <==> input@.len() >= 1 && input@[0] == 35 && (hex_run(input@.skip(1)) == 3
            || hex_run(input@.skip(1)) == 4 || hex_run(input@.skip(1)) == 6 || hex_run(input@.skip(1))
            == 8),
{
    let n = input.len();
    if n == 0 || input[0] != 35 {
        return None;
    }
    let mut end: usize = 1;
    while end < n && ((48 <= input[end] && input[end] <= 57) || (65 <= input[end] && input[end] <= 70)
        || (97 <= input[end] && input[end] <= 102))
        invariant
            n == input@.len(),
            1 <= end <= n,
            forall|i: int| 1 <= i < end ==> is_hex_digit(#[trigger] input@[i]),
        decreases n - end,
    {
        end += 1;
    }
    let ghost rest = input@.skip(1);
    proof {
        assert forall|i: int| 0 <= i < end - 1 implies is_hex_digit(#[trigger] rest[i]) by {
            assert(rest[i] == input@[i + 1]);
        }
        lemma_hex_run(rest, end - 1);
        if end < n {
            assert(rest.skip(end - 1)[0] == input@[end as int]);
        } else {
            assert(rest.skip(end - 1).len() == 0);
        }
    }
    if end == 1 {
        return None;
    }
    let digits = slice_subrange(input, 1, end);
    assert forall|i: int| 0 <= i < digits@.len() implies is_hex_digit(#[trigger] digits@[i]) by {
        assert(digits@[i] == input@[i + 1]);
    }
    match color_from_hex(digits) {
        Ok(v) => Some((end, Color(v))),
        Err(_) => None,
    }
}

} // verus!
