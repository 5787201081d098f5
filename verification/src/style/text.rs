//! Text style values: line breaking, font family, weight and style.
use vstd::prelude::*;

use super::utils::{byte_views, first_keyword, lemma_first_keyword_bounds, parse_keyword};

verus! {

/// Options for handling lines that are too wide for the label.
#[derive(Debug, Clone, Copy, PartialEq, Eq, Structural)]
pub enum LineBreaking {
    /// Lines are broken at word boundaries.
    WordWrap,
    /// Lines are truncated to the width of the label.
    Clip,
    /// Lines overflow the label.
    Overflow,
}

impl Default for LineBreaking {
    fn default() -> (r: Self)
        ensures
            r == LineBreaking::WordWrap,
    {
        LineBreaking::WordWrap
    }
}

/// Slant of a font.
#[derive(Debug, Clone, Copy, PartialEq, Eq, Structural)]
pub enum FontStyle {
    Regular,
    Italic,
}

/// The names that `parse_line_breaking` recognises, in the order in which it tries
/// them: WordWrap, Clip, Overflow.
pub open spec fn parse_line_breaking_names() -> Seq<Seq<u8>> {
    seq![
        seq![87u8, 111u8, 114u8, 100u8, 87u8, 114u8, 97u8, 112u8],
        seq![67u8, 108u8, 105u8, 112u8],
        seq![79u8, 118u8, 101u8, 114u8, 102u8, 108u8, 111u8, 119u8]
    ]
}

/// The value named by the `i`-th of the names of `parse_line_breaking`.
pub open spec fn parse_line_breaking_value(i: int) -> LineBreaking {
    if i == 0 {
        LineBreaking::WordWrap
    } else if i == 1 {
        LineBreaking::Clip
    } else {
        LineBreaking::Overflow
    }
}

fn parse_line_breaking_name_list() -> (v: Vec<Vec<u8>>)
    ensures
        byte_views(v@) == parse_line_breaking_names(),
{
    let v = vec![
        vec![87u8, 111u8, 114u8, 100u8, 87u8, 114u8, 97u8, 112u8],
        vec![67u8, 108u8, 105u8, 112u8],
        vec![79u8, 118u8, 101u8, 114u8, 102u8, 108u8, 111u8, 119u8]
    ];
    assert(byte_views(v@) =~= parse_line_breaking_names());
    v
}

/// Parses a line breaking mode.
///
/// The input must start with one of the names (WordWrap, Clip, Overflow), in any ASCII
/// case; the first that matches, in that order, is taken. Returns the
/// number of bytes consumed and the value.
pub fn parse_line_breaking(input: &[u8]) -> (r: Option<(usize, LineBreaking)>)
    ensures
        r == (match first_keyword(input@, parse_line_breaking_names(), 0) {
            Some(i) => Some((parse_line_breaking_names()[i].len() as usize, parse_line_breaking_value(i))),
            None => None,
        }),
{
    let names = parse_line_breaking_name_list();
    match parse_keyword(input, &names) {
        Some(i) => {
            proof {
                lemma_first_keyword_bounds(input@, parse_line_breaking_names(), 0);
            }
            assert(byte_views(names@)[i as int] == names@[i as int]@);
            let value = match i {
        0 => LineBreaking::WordWrap,
        1 => LineBreaking::Clip,
                _ => LineBreaking::Overflow,
            };
            Some((names[i].len(), value))
        },
        None => None,
    }
}

/// The names that `parse_font_style` recognises, in the order in which it tries
/// them: Regular, Italic.
pub open spec fn parse_font_style_names() -> Seq<Seq<u8>> {
    seq![
        seq![82u8, 101u8, 103u8, 117u8, 108u8, 97u8, 114u8],
        seq![73u8, 116u8, 97u8, 108u8, 105u8, 99u8]
    ]
}

/// The value named by the `i`-th of the names of `parse_font_style`.
pub open spec fn parse_font_style_value(i: int) -> FontStyle {
    if i == 0 {
        FontStyle::Regular
    } else {
        FontStyle::Italic
    }
}

fn parse_font_style_name_list() -> (v: Vec<Vec<u8>>)
    ensures
        byte_views(v@) == parse_font_style_names(),
{
    let v = vec![
        vec![82u8, 101u8, 103u8, 117u8, 108u8, 97u8, 114u8],
        vec![73u8, 116u8, 97u8, 108u8, 105u8, 99u8]
    ];
    assert(byte_views(v@) =~= parse_font_style_names());
    v
}

/// Parses a font style.
///
/// The input must start with one of the names (Regular, Italic), in any ASCII
/// case; the first that matches, in that order, is taken. Returns the
/// number of bytes consumed and the value.
pub fn parse_font_style(input: &[u8]) -> (r: Option<(usize, FontStyle)>)
    ensures
        r == (match first_keyword(input@, parse_font_style_names(), 0) {
            Some(i) => Some((parse_font_style_names()[i].len() as usize, parse_font_style_value(i))),
            None => None,
        }),
{
    let names = parse_font_style_name_list();
    match parse_keyword(input, &names) {
        Some(i) => {
            proof {
                lemma_first_keyword_bounds(input@, parse_font_style_names(), 0);
            }
            assert(byte_views(names@)[i as int] == names@[i as int]@);
            let value = match i {
        0 => FontStyle::Regular,
                _ => FontStyle::Italic,
            };
            Some((names[i].len(), value))
        },
        None => None,
    }
}

} // verus!

verus! {

/// The weight of a font, from 1 to 1000.
#[derive(Debug, Clone, Copy, PartialEq, Eq, Structural)]
pub struct FontWeight(pub u16);

impl FontWeight {
    /// A weight with a custom value, clamped to the range 1..=1000.
    pub fn new(raw: u16) -> (w: FontWeight)
        ensures
            w.0 == clamp_weight(raw as int),
    {
        let raw = if raw > 1000 {
            1000
        } else {
            raw
        };
        let raw = if raw < 1 {
            1
        } else {
            raw
        };
        FontWeight(raw)
    }

    /// The raw value.
    pub fn to_raw(self) -> (r: u16)
        ensures
            r == self.0,
    {
        self.0
    }
}

/// `raw` clamped to the range 1..=1000.
pub open spec fn clamp_weight(raw: int) -> int {
    if raw > 1000 {
        1000
    } else if raw < 1 {
        1
    } else {
        raw
    }
}

/// The weight names that `parse_font_weight` recognises, in the order in
/// which it tries them: THIN, HAIRLINE, EXTRA_LIGHT, LIGHT, REGULAR, NORMAL, MEDIUM, SEMI_BOLD, BOLD, EXTRA_BOLD, BLACK, HEAVY, EXTRA_BLACK.
pub open spec fn parse_font_weight_names() -> Seq<Seq<u8>> {
    seq![
        seq![84u8, 72u8, 73u8, 78u8],
        seq![72u8, 65u8, 73u8, 82u8, 76u8, 73u8, 78u8, 69u8],
        seq![69u8, 88u8, 84u8, 82u8, 65u8, 95u8, 76u8, 73u8, 71u8, 72u8, 84u8],
        seq![76u8, 73u8, 71u8, 72u8, 84u8],
        seq![82u8, 69u8, 71u8, 85u8, 76u8, 65u8, 82u8],
        seq![78u8, 79u8, 82u8, 77u8, 65u8, 76u8],
        seq![77u8, 69u8, 68u8, 73u8, 85u8, 77u8],
        seq![83u8, 69u8, 77u8, 73u8, 95u8, 66u8, 79u8, 76u8, 68u8],
        seq![66u8, 79u8, 76u8, 68u8],
        seq![69u8, 88u8, 84u8, 82u8, 65u8, 95u8, 66u8, 79u8, 76u8, 68u8],
        seq![66u8, 76u8, 65u8, 67u8, 75u8],
        seq![72u8, 69u8, 65u8, 86u8, 89u8],
        seq![69u8, 88u8, 84u8, 82u8, 65u8, 95u8, 66u8, 76u8, 65u8, 67u8, 75u8]
    ]
}

/// The weights that the names of `parse_font_weight` stand for.
pub open spec fn font_weight_values() -> Seq<u16> {
    seq![
        100u16,
        100u16,
        200u16,
        300u16,
        400u16,
        400u16,
        500u16,
        600u16,
        700u16,
        800u16,
        900u16,
        900u16,
        950u16
    ]
}

fn font_weight_name_list() -> (v: Vec<Vec<u8>>)
    ensures
        byte_views(v@) == parse_font_weight_names(),
{
    let v = vec![
        vec![84u8, 72u8, 73u8, 78u8],
        vec![72u8, 65u8, 73u8, 82u8, 76u8, 73u8, 78u8, 69u8],
        vec![69u8, 88u8, 84u8, 82u8, 65u8, 95u8, 76u8, 73u8, 71u8, 72u8, 84u8],
        vec![76u8, 73u8, 71u8, 72u8, 84u8],
        vec![82u8, 69u8, 71u8, 85u8, 76u8, 65u8, 82u8],
        vec![78u8, 79u8, 82u8, 77u8, 65u8, 76u8],
        vec![77u8, 69u8, 68u8, 73u8, 85u8, 77u8],
        vec![83u8, 69u8, 77u8, 73u8, 95u8, 66u8, 79u8, 76u8, 68u8],
        vec![66u8, 79u8, 76u8, 68u8],
        vec![69u8, 88u8, 84u8, 82u8, 65u8, 95u8, 66u8, 79u8, 76u8, 68u8],
        vec![66u8, 76u8, 65u8, 67u8, 75u8],
        vec![72u8, 69u8, 65u8, 86u8, 89u8],
        vec![69u8, 88u8, 84u8, 82u8, 65u8, 95u8, 66u8, 76u8, 65u8, 67u8, 75u8]
    ];
    assert(byte_views(v@) =~= parse_font_weight_names());
    v
}

fn font_weight_value_list() -> (v: Vec<u16>)
    ensures
        v@ == font_weight_values(),
{
    let v = vec![
        100u16,
        100u16,
        200u16,
        300u16,
        400u16,
        400u16,
        500u16,
        600u16,
        700u16,
        800u16,
        900u16,
        900u16,
        950u16
    ];
    assert(v@ =~= font_weight_values());
    v
}

/// Whether a byte is an ASCII decimal digit.
pub open spec fn is_digit(b: u8) -> bool {
    48 <= b <= 57
}

/// Whether a byte is an ASCII letter or digit.
pub open spec fn is_alphanumeric(b: u8) -> bool {
    is_digit(b) || (65 <= b <= 90) || (97 <= b <= 122)
}

/// The length of the longest prefix of `s` whose bytes all satisfy `p`.
pub open spec fn run_len(s: Seq<u8>, p: spec_fn(u8) -> bool) -> nat
    decreases s.len(),
{
    if s.len() == 0 || !p(s[0]) {
        0
    } else {
        1 + run_len(s.drop_first(), p)
    }
}

/// The number that the decimal digits `s` write.
pub open spec fn decimal(s: Seq<u8>) -> int
    decreases s.len(),
{
    if s.len() == 0 {
        0
    } else {
        decimal(s.drop_last()) * 10 + (s.last() - 48)
    }
}

/// What `parse_font_weight` returns for `input`: a named weight, or else a
/// run of decimal digits whose value fits in 16 bits, clamped to 1..=1000.
pub open spec fn spec_parse_font_weight(input: Seq<u8>) -> Option<(usize, FontWeight)> {
    match first_keyword(input, parse_font_weight_names(), 0) {
        Some(i) => Some((parse_font_weight_names()[i].len() as usize, FontWeight(font_weight_values()[i]))),
        None => {
            let n = run_len(input, |b: u8| is_digit(b));
            if n >= 1 && decimal(input.take(n as int)) <= 65535 {
                Some((n as usize, FontWeight(clamp_weight(decimal(input.take(n as int))) as u16)))
            } else {
                None
            }
        },
    }
}

proof fn lemma_run_len_bound(s: Seq<u8>, p: spec_fn(u8) -> bool)
    ensures
        run_len(s, p) <= s.len(),
        forall|i: int| 0 <= i < run_len(s, p) ==> p(#[trigger] s[i]),
        run_len(s, p) < s.len() ==> !p(s[run_len(s, p) as int]),
    decreases s.len(),
{
    if s.len() > 0 && p(s[0]) {
        lemma_run_len_bound(s.drop_first(), p);
        assert forall|i: int| 0 <= i < run_len(s, p) implies p(#[trigger] s[i]) by {
            if i > 0 {
                assert(s[i] == s.drop_first()[i - 1]);
            }
        }
        if run_len(s, p) < s.len() {
            assert(s[run_len(s, p) as int] == s.drop_first()[run_len(s.drop_first(), p) as int]);
        }
    }
}

proof fn lemma_run_len_exact(s: Seq<u8>, p: spec_fn(u8) -> bool, n: int)
    requires
        0 <= n <= s.len(),
        forall|i: int| 0 <= i < n ==> p(#[trigger] s[i]),
        n < s.len() ==> !p(s[n]),
    ensures
        run_len(s, p) == n,
    decreases n,
{
    if n > 0 {
        assert forall|i: int| 0 <= i < n - 1 implies p(#[trigger] s.drop_first()[i]) by {
            assert(s.drop_first()[i] == s[i + 1]);
        }
        if n < s.len() {
            assert(s.drop_first()[n - 1] == s[n]);
        }
        lemma_run_len_exact(s.drop_first(), p, n - 1);
    }
}

/// Parses a font weight: one of the weight names (THIN, HAIRLINE, EXTRA_LIGHT, LIGHT, REGULAR, NORMAL, MEDIUM, SEMI_BOLD, BOLD, EXTRA_BOLD, BLACK, HEAVY, EXTRA_BLACK),
/// in any ASCII case and tried in that order, or else a decimal number that
/// fits in 16 bits, clamped to 1..=1000. Returns the number of bytes consumed
/// and the weight.
pub fn parse_font_weight(input: &[u8]) -> (r: Option<(usize, FontWeight)>)
    ensures
        r == spec_parse_font_weight(input@),
{
    let names = font_weight_name_list();
    let values = font_weight_value_list();
    match parse_keyword(input, &names) {
        Some(i) => {
            proof {
                lemma_first_keyword_bounds(input@, parse_font_weight_names(), 0);
            }
            assert(byte_views(names@)[i as int] == names@[i as int]@);
            return Some((names[i].len(), FontWeight(values[i])));
        },
        None => {},
    }
    let ghost digits = |b: u8| is_digit(b);
    let mut n: usize = 0;
    let mut value: u32 = 0;
    while n < input.len() && 48 <= input[n] && input[n] <= 57
        invariant
            n <= input@.len(),
            forall|i: int| 0 <= i < n ==> is_digit(#[trigger] input@[i]),
            value == if decimal(input@.take(n as int)) > 65535 {
                65536
            } else {
                decimal(input@.take(n as int))
            },
        decreases input@.len() - n,
    {
        let d = (input[n] - 48) as u32;
        proof {
            assert(input@.take(n + 1).drop_last() =~= input@.take(n as int));
            assert(input@.take(n + 1).last() == input@[n as int]);
            assert forall|i: int| 0 <= i < input@.take(n as int).len() implies is_digit(#[trigger] input@.take(n as int)[i]) by {
                assert(input@.take(n as int)[i] == input@[i]);
            }
            lemma_decimal_nonneg(input@.take(n as int));
        }
        value = if value > 65535 {
            65536
        } else {
            let v = value * 10 + d;
            if v > 65535 {
                65536
            } else {
                v
            }
        };
        n += 1;
    }
    proof {
        lemma_run_len_exact(input@, digits, n as int);
    }
    if n >= 1 && value <= 65535 {
        Some((n, FontWeight::new(value as u16)))
    } else {
        None
    }
}

proof fn lemma_decimal_nonneg(s: Seq<u8>)
    requires
        forall|i: int| 0 <= i < s.len() ==> is_digit(#[trigger] s[i]),
    ensures
        decimal(s) >= 0,
    decreases s.len(),
{
    if s.len() > 0 {
        assert forall|i: int| 0 <= i < s.drop_last().len() implies is_digit(#[trigger] s.drop_last()[i]) by {
            assert(s.drop_last()[i] == s[i]);
        }
        lemma_decimal_nonneg(s.drop_last());
    }
}

/// A font family: one of the generic families or a family by name.
#[derive(Debug, Clone, PartialEq, Eq)]
pub enum FontFamily {
    SystemUi,
    Serif,
    SansSerif,
    Monospace,
    /// A family by its name, in UTF-8.
    Named(Vec<u8>),
}

/// The generic family names that `parse_font_family` recognises, in the
/// order in which it tries them: SERIF, SANS_SERIF, MONOSPACE, SYSTEM_UI.
pub open spec fn generic_family_names() -> Seq<Seq<u8>> {
    seq![
        seq![83u8, 69u8, 82u8, 73u8, 70u8],
        seq![83u8, 65u8, 78u8, 83u8, 95u8, 83u8, 69u8, 82u8, 73u8, 70u8],
        seq![77u8, 79u8, 78u8, 79u8, 83u8, 80u8, 65u8, 67u8, 69u8],
        seq![83u8, 89u8, 83u8, 84u8, 69u8, 77u8, 95u8, 85u8, 73u8]
    ]
}

fn generic_family_name_list() -> (v: Vec<Vec<u8>>)
    ensures
        byte_views(v@) == generic_family_names(),
{
    let v = vec![
        vec![83u8, 69u8, 82u8, 73u8, 70u8],
        vec![83u8, 65u8, 78u8, 83u8, 95u8, 83u8, 69u8, 82u8, 73u8, 70u8],
        vec![77u8, 79u8, 78u8, 79u8, 83u8, 80u8, 65u8, 67u8, 69u8],
        vec![83u8, 89u8, 83u8, 84u8, 69u8, 77u8, 95u8, 85u8, 73u8]
    ];
    assert(byte_views(v@) =~= generic_family_names());
    v
}

/// The family that a parse of a family name gives, viewed with the bytes of
/// a name.
pub enum FamilyView {
    SystemUi,
    Serif,
    SansSerif,
    Monospace,
    Named(Seq<u8>),
}

/// The view of a font family.
pub open spec fn family_view(f: FontFamily) -> FamilyView {
    match f {
        FontFamily::SystemUi => FamilyView::SystemUi,
        FontFamily::Serif => FamilyView::Serif,
        FontFamily::SansSerif => FamilyView::SansSerif,
        FontFamily::Monospace => FamilyView::Monospace,
        FontFamily::Named(n) => FamilyView::Named(n@),
    }
}

/// The generic family that the `i`-th generic name stands for.
pub open spec fn generic_family(i: int) -> FamilyView {
    if i == 0 {
        FamilyView::Serif
    } else if i == 1 {
        FamilyView::SansSerif
    } else if i == 2 {
        FamilyView::Monospace
    } else {
        FamilyView::SystemUi
    }
}

/// Whether a byte may stand inside a quoted family name.
pub open spec fn in_quoted_name(b: u8) -> bool {
    b != 34 && b != 10 && b != 13
}

/// What `parse_font_family` returns for `input`: a generic family name, or
/// else a run of ASCII letters and digits, or else a non-empty name between
/// double quotes that holds no quote and no line break.
pub open spec fn spec_parse_font_family(input: Seq<u8>) -> Option<(int, FamilyView)> {
    match first_keyword(input, generic_family_names(), 0) {
        Some(i) => Some((generic_family_names()[i].len() as int, generic_family(i))),
        None => {
            let n = run_len(input, |b: u8| is_alphanumeric(b));
            if n >= 1 {
                Some((n as int, FamilyView::Named(input.take(n as int))))
            } else if input.len() >= 1 && input[0] == 34 {
                let rest = input.drop_first();
                let m = run_len(rest, |b: u8| in_quoted_name(b));
                if m >= 1 && m < rest.len() && rest[m as int] == 34 {
                    Some((m + 2int, FamilyView::Named(rest.take(m as int))))
                } else {
                    None
                }
            } else {
                None
            }
        },
    }
}

fn copy_bytes(input: &[u8], from: usize, to: usize) -> (v: Vec<u8>)
    requires
        from <= to <= input@.len(),
    ensures
        v@ == input@.subrange(from as int, to as int),
{
    let mut v: Vec<u8> = Vec::new();
    let mut i = from;
    while i < to
        invariant
            from <= i <= to <= input@.len(),
            v@ == input@.subrange(from as int, i as int),
        decreases to - i,
    {
        v.push(input[i]);
        i += 1;
        assert(v@ =~= input@.subrange(from as int, i as int));
    }
    v
}

/// Parses a font family: one of the generic names (SERIF, SANS_SERIF, MONOSPACE, SYSTEM_UI),
/// in any ASCII case and tried in that order; or else a name made of ASCII
/// letters and digits; or else a non-empty name between double quotes that
/// holds no quote and no line break. Returns the number of bytes consumed
/// and the family.
pub fn parse_font_family(input: &[u8]) -> (r: Option<(usize, FontFamily)>)
    ensures
        match r {
            Some((n, f)) => spec_parse_font_family(input@) == Some((n as int, family_view(f))),
            None => spec_parse_font_family(input@) is None,
        },
{
    let names = generic_family_name_list();
    match parse_keyword(input, &names) {
        Some(i) => {
            proof {
                lemma_first_keyword_bounds(input@, generic_family_names(), 0);
            }
            assert(byte_views(names@)[i as int] == names@[i as int]@);
            let f = if i == 0 {
                FontFamily::Serif
            } else if i == 1 {
                FontFamily::SansSerif
            } else if i == 2 {
                FontFamily::Monospace
            } else {
                FontFamily::SystemUi
            };
            return Some((names[i].len(), f));
        },
        None => {},
    }
    let ghost alnum = |b: u8| is_alphanumeric(b);
    let mut n: usize = 0;
    while n < input.len() && ((48 <= input[n] && input[n] <= 57) || (65 <= input[n] && input[n] <= 90)
        || (97 <= input[n] && input[n] <= 122))
        invariant
            n <= input@.len(),
            forall|i: int| 0 <= i < n ==> is_alphanumeric(#[trigger] input@[i]),
        decreases input@.len() - n,
    {
        n += 1;
    }
    proof {
        lemma_run_len_exact(input@, alnum, n as int);
    }
    if n >= 1 {
        return Some((n, FontFamily::Named(copy_bytes(input, 0, n))));
    }
    if input.len() >= 1 && input[0] == 34 {
        let ghost rest = input@.drop_first();
        let ghost quoted = |b: u8| in_quoted_name(b);
        let mut m: usize = 1;
        while m < input.len() && input[m] != 34 && input[m] != 10 && input[m] != 13
            invariant
                1 <= m <= input@.len(),
                rest == input@.drop_first(),
                forall|i: int| 0 <= i < m - 1 ==> in_quoted_name(#[trigger] rest[i]),
            decreases input@.len() - m,
        {
            m += 1;
        }
        proof {
            if m < input@.len() {
                assert(rest[m - 1] == input@[m as int]);
            }
            lemma_run_len_exact(rest, quoted, m - 1);
        }
        if m >= 2 && m < input.len() && input[m] == 34 {
            assert(rest[m - 1] == input@[m as int]);
            let name = copy_bytes(input, 1, m);
            assert(name@ =~= rest.take(m - 1));
            return Some((m + 1, FontFamily::Named(name)));
        }
    }
    None
}

} // verus!
