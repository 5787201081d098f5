//! Small parsing helpers over the bytes of a style sheet.
use vstd::prelude::*;

verus! {

/// The ASCII lower-case form of a byte.
pub open spec fn lower(b: u8) -> u8 {
    if 65 <= b <= 90 {
        (b + 32) as u8
    } else {
        b
    }
}

/// Whether `input` starts with `tag`, ignoring ASCII case.
pub open spec fn starts_with_no_case(input: Seq<u8>, tag: Seq<u8>) -> bool {
    &&& tag.len() <= input.len()
    &&& forall|i: int| 0 <= i < tag.len() ==> lower(#[trigger] input[i]) == lower(tag[i])
}

fn lower_exec(b: u8) -> (r: u8)
    ensures
        r == lower(b),
{
    if 65 <= b && b <= 90 {
        b + 32
    } else {
        b
    }
}

/// Whether `input` starts with `tag`, ignoring ASCII case.
pub fn tag_no_case(input: &[u8], tag: &[u8]) -> (b: bool)
    ensures
        b == starts_with_no_case(input@, tag@),
{
    if tag.len() > input.len() {
        return false;
    }
    let mut i: usize = 0;
    while i < tag.len()
        invariant
            i <= tag@.len() <= input@.len(),
            forall|j: int| 0 <= j < i ==> lower(#[trigger] input@[j]) == lower(tag@[j]),
        decreases tag@.len() - i,
    {
        if lower_exec(input[i]) != lower_exec(tag[i]) {
            return false;
        }
        i += 1;
    }
    true
}

/// The views of a list of byte strings.
pub open spec fn byte_views(v: Seq<Vec<u8>>) -> Seq<Seq<u8>> {
    v.map_values(|x: Vec<u8>| x@)
}

/// The position of the first of `names` that `input` starts with, ignoring
/// ASCII case.
pub open spec fn first_keyword(input: Seq<u8>, names: Seq<Seq<u8>>, from: int) -> Option<int>
    decreases names.len() - from,
{
    if from < 0 || from >= names.len() {
        None
    } else if starts_with_no_case(input, names[from]) {
        Some(from)
    } else {
        first_keyword(input, names, from + 1)
    }
}

/// Which of `names` the input starts with, trying them in order and
/// ignoring ASCII case.
pub fn parse_keyword(input: &[u8], names: &Vec<Vec<u8>>) -> (r: Option<usize>)
    ensures
        match r {
            Some(i) => first_keyword(input@, byte_views(names@), 0) == Some(i as int),
            None => first_keyword(input@, byte_views(names@), 0) is None,
        },
{
    let ghost ns = byte_views(names@);
    let mut i: usize = 0;
    while i < names.len()
        invariant
            i <= names@.len(),
            ns == byte_views(names@),
            first_keyword(input@, ns, 0) == first_keyword(input@, ns, i as int),
        decreases names@.len() - i,
    {
        assert(ns[i as int] == names@[i as int]@);
        if tag_no_case(input, names[i].as_slice()) {
            return Some(i);
        }
        i += 1;
    }
    None
}

} // verus!

verus! {

/// Where `first_keyword` finds a name, the input starts with that name.
pub proof fn lemma_first_keyword_bounds(input: Seq<u8>, names: Seq<Seq<u8>>, from: int)
    ensures
        match first_keyword(input, names, from) {
            Some(i) => 0 <= from <= i < names.len() && starts_with_no_case(input, names[i]),
            None => true,
        },
    decreases names.len() - from,
{
    if 0 <= from < names.len() && !starts_with_no_case(input, names[from]) {
        lemma_first_keyword_bounds(input, names, from + 1);
    }
}

} // verus!
