//! The registry of live styles: where each `live_s!` call sits in the
//! sources, which style block it reads, and the cache of parsed styles.
use vstd::prelude::*;

use crate::style::text::{decimal, is_digit};

verus! {

/// The position of a `live_s!` call: its line and the absolute path of its file.
#[derive(Debug)]
pub struct StylePos {
    pub line: usize,
    pub file: String,
}

/// The view of a position: its line and file path.
pub open spec fn pos_view(p: StylePos) -> (int, Seq<char>) {
    (p.line as int, p.file@)
}

impl Clone for StylePos {
    fn clone(&self) -> (r: StylePos)
        ensures
            r == *self,
    {
        StylePos { line: self.line, file: self.file.clone() }
    }
}

impl StylePos {
    /// The position at `line` of the file at the absolute path `path`.
    pub fn new(line: usize, path: String) -> (p: StylePos)
        ensures
            p.line == line,
            p.file@ == path@,
    {
        StylePos { line, file: path }
    }

    /// Whether two positions are the same line of the same file.
    pub fn same(&self, other: &StylePos) -> (b: bool)
        ensures
            b == (pos_view(*self) == pos_view(*other)),
    {
        self.line == other.line && self.file == other.file
    }
}

/// Identifies a style block: its file and its rank among the blocks of that file.
#[derive(Debug)]
pub struct StyleId {
    pub file: String,
    pub id: usize,
}

/// The view of a style identity: its file path and rank.
pub open spec fn id_view(s: StyleId) -> (Seq<char>, int) {
    (s.file@, s.id as int)
}

impl Clone for StyleId {
    fn clone(&self) -> (r: StyleId)
        ensures
            r == *self,
    {
        StyleId { file: self.file.clone(), id: self.id }
    }
}

impl StyleId {
    /// Whether two identities name the same block.
    pub fn same(&self, other: &StyleId) -> (b: bool)
        ensures
            b == (id_view(*self) == id_view(*other)),
    {
        self.id == other.id && self.file == other.file
    }
}

/// The number of positions in `s` in the file of `k` on an earlier line.
pub open spec fn count_earlier(s: Seq<(int, Seq<char>)>, k: (int, Seq<char>)) -> nat
    decreases s.len(),
{
    if s.len() == 0 {
        0
    } else {
        count_earlier(s.drop_last(), k) + if s.last().1 == k.1 && s.last().0 < k.0 {
            1nat
        } else {
            0nat
        }
    }
}

/// The number of occurrences of `k` in `s`.
pub open spec fn count_same(s: Seq<(int, Seq<char>)>, k: (int, Seq<char>)) -> nat
    decreases s.len(),
{
    if s.len() == 0 {
        0
    } else {
        count_same(s.drop_last(), k) + if s.last() == k {
            1nat
        } else {
            0nat
        }
    }
}

/// The rank of the block at `k` among the blocks of its file, when the
/// positions of each file are taken in order of their lines: the last of
/// the equal positions gives the rank.
pub open spec fn style_rank(s: Seq<(int, Seq<char>)>, k: (int, Seq<char>)) -> int {
    count_earlier(s, k) + count_same(s, k) - 1
}

/// The identity that the first entry of `entries` with position `k` maps to.
pub open spec fn lookup(entries: Seq<(StylePos, StyleId)>, k: (int, Seq<char>)) -> Option<
    (Seq<char>, int),
>
    decreases entries.len(),
{
    if entries.len() == 0 {
        None
    } else if pos_view(entries[0].0) == k {
        Some(id_view(entries[0].1))
    } else {
        lookup(entries.drop_first(), k)
    }
}

/// The views of a list of positions.
pub open spec fn pos_views(s: Seq<StylePos>) -> Seq<(int, Seq<char>)> {
    s.map_values(|p: StylePos| pos_view(p))
}

/// Maps the position of every `live_s!` call to the style block it reads.
#[derive(Debug)]
pub struct StyleCenter {
    pub initial_file_haystack: Vec<(StylePos, StyleId)>,
}

fn count_earlier_exec(styles: &Vec<StylePos>, p: &StylePos) -> (n: usize)
    ensures
        n == count_earlier(pos_views(styles@), pos_view(*p)),
{
    let ghost s = pos_views(styles@);
    let mut n: usize = 0;
    let mut i: usize = 0;
    while i < styles.len()
        invariant
            i <= styles@.len(),
            s == pos_views(styles@),
            n == count_earlier(s.take(i as int), pos_view(*p)),
            n <= i,
        decreases styles@.len() - i,
    {
        assert(s.take(i + 1).drop_last() =~= s.take(i as int));
        assert(s.take(i + 1).last() == pos_view(styles@[i as int]));
        if styles[i].file == p.file && styles[i].line < p.line {
            n += 1;
        }
        i += 1;
    }
    assert(s.take(styles@.len() as int) =~= s);
    n
}

fn count_same_exec(styles: &Vec<StylePos>, p: &StylePos) -> (n: usize)
    ensures
        n == count_same(pos_views(styles@), pos_view(*p)),
{
    let ghost s = pos_views(styles@);
    let mut n: usize = 0;
    let mut i: usize = 0;
    while i < styles.len()
        invariant
            i <= styles@.len(),
            s == pos_views(styles@),
            n == count_same(s.take(i as int), pos_view(*p)),
            n <= i,
        decreases styles@.len() - i,
    {
        assert(s.take(i + 1).drop_last() =~= s.take(i as int));
        assert(s.take(i + 1).last() == pos_view(styles@[i as int]));
        if styles[i].same(p) {
            n += 1;
        }
        i += 1;
    }
    assert(s.take(styles@.len() as int) =~= s);
    n
}

proof fn lemma_count_same_member(s: Seq<(int, Seq<char>)>, i: int)
    requires
        0 <= i < s.len(),
    ensures
        count_same(s, s[i]) >= 1,
    decreases s.len(),
{
    if i < s.len() - 1 {
        assert(s.drop_last()[i] == s[i]);
        lemma_count_same_member(s.drop_last(), i);
    }
}

proof fn lemma_lookup_push(entries: Seq<(StylePos, StyleId)>, e: (StylePos, StyleId), k: (int, Seq<char>))
    ensures
        lookup(entries.push(e), k) == (match lookup(entries, k) {
            Some(v) => Some(v),
            None => if pos_view(e.0) == k {
                Some(id_view(e.1))
            } else {
                None
            },
        }),
    decreases entries.len(),
{
    if entries.len() > 0 {
        assert(entries.push(e)[0] == entries[0]);
        assert(entries.push(e).drop_first() =~= entries.drop_first().push(e));
        lemma_lookup_push(entries.drop_first(), e, k);
    } else {
        assert(entries.push(e)[0] == e);
        assert(entries.push(e).drop_first() =~= Seq::<(StylePos, StyleId)>::empty());
        assert(lookup(Seq::<(StylePos, StyleId)>::empty(), k) is None);
    }
}

impl StyleCenter {
    /// Builds the registry from the positions of the `live_s!` calls found in
    /// the sources. Within each file the calls are taken in order of their
    /// lines, and the n-th of them reads the n-th style block of the file.
    pub fn new(styles: Vec<StylePos>) -> (c: StyleCenter)
        ensures
            forall|k: (int, Seq<char>)|
                #![trigger lookup(c.initial_file_haystack@, k)]
                lookup(c.initial_file_haystack@, k) == if pos_views(styles@).contains(k) {
                    Some((k.1, style_rank(pos_views(styles@), k)))
                } else {
                    None
                },
    {
        let ghost s = pos_views(styles@);
        let mut map: Vec<(StylePos, StyleId)> = Vec::new();
        let mut i: usize = 0;
        while i < styles.len()
            invariant
                i <= styles@.len(),
                s == pos_views(styles@),
                forall|k: (int, Seq<char>)|
                    #![trigger lookup(map@, k)]
                    lookup(map@, k) == if s.take(i as int).contains(k) {
                        Some((k.1, style_rank(s, k)))
                    } else {
                        None
                    },
            decreases styles@.len() - i,
        {
            let p = &styles[i];
            let ghost k = pos_view(*p);
            assert(s[i as int] == k);
            let earlier = count_earlier_exec(&styles, p);
            let same = count_same_exec(&styles, p);
            proof {
                lemma_count_same_member(s, i as int);
            }
            let mut j: usize = 0;
            let mut present = false;
            while j < map.len()
                invariant
                    j <= map@.len(),
                    k == pos_view(*p),
                    present == exists|l: int| 0 <= l < j && pos_view(#[trigger] map@[l].0) == k,
                decreases map@.len() - j,
            {
                let hit = map[j].0.same(p);
                assert(hit == (pos_view(map@[j as int].0) == k));
                if hit {
                    present = true;
                }
                j += 1;
            }
            let ghost old_map = map@;
            if !present {
                let _len = styles.len();
                proof {
                    lemma_count_bound(s, k);
                }
                let entry = (p.clone(), StyleId { file: p.file.clone(), id: earlier + same - 1 });
                map.push(entry);
                proof {
                    assert forall|q: (int, Seq<char>)| #![trigger lookup(map@, q)]
                        lookup(map@, q) == if s.take(i + 1).contains(q) {
                            Some((q.1, style_rank(s, q)))
                        } else {
                            None
                        } by {
                        lemma_lookup_push(old_map, entry, q);
                        lemma_contains_take_step(s, i as int, q);
                    }
                }
            } else {
                proof {
                    let l = choose|l: int| 0 <= l < map@.len() && pos_view(#[trigger] map@[l].0) == k;
                    lemma_lookup_some(map@, l, k);
                    assert forall|q: (int, Seq<char>)| #![trigger lookup(map@, q)]
                        lookup(map@, q) == if s.take(i + 1).contains(q) {
                            Some((q.1, style_rank(s, q)))
                        } else {
                            None
                        } by {
                        lemma_contains_take_step(s, i as int, q);
                    }
                }
            }
            i += 1;
        }
        assert(s.take(styles@.len() as int) =~= s);
        StyleCenter { initial_file_haystack: map }
    }

    /// The style block that the call at `pos` reads, if the call is known.
    pub fn get_id(&self, pos: &StylePos) -> (r: Option<StyleId>)
        ensures
            match r {
                Some(id) => lookup(self.initial_file_haystack@, pos_view(*pos)) == Some(id_view(id)),
                None => lookup(self.initial_file_haystack@, pos_view(*pos)) is None,
            },
    {
        let ghost k = pos_view(*pos);
        assert(self.initial_file_haystack@.skip(0) =~= self.initial_file_haystack@);
        let mut j: usize = 0;
        while j < self.initial_file_haystack.len()
            invariant
                j <= self.initial_file_haystack@.len(),
                k == pos_view(*pos),
                lookup(self.initial_file_haystack@, k) == lookup(
                    self.initial_file_haystack@.skip(j as int),
                    k,
                ),
            decreases self.initial_file_haystack@.len() - j,
        {
            let ghost rest = self.initial_file_haystack@.skip(j as int);
            assert(rest.len() > 0);
            assert(rest[0] == self.initial_file_haystack@[j as int]);
            assert(rest.drop_first() =~= self.initial_file_haystack@.skip(j + 1));
            if self.initial_file_haystack[j].0.same(pos) {
                return Some(self.initial_file_haystack[j].1.clone());
            }
            j += 1;
        }
        None
    }
}

proof fn lemma_count_bound(s: Seq<(int, Seq<char>)>, k: (int, Seq<char>))
    ensures
        count_earlier(s, k) + count_same(s, k) <= s.len(),
    decreases s.len(),
{
    if s.len() > 0 {
        lemma_count_bound(s.drop_last(), k);
    }
}

proof fn lemma_contains_take_step(s: Seq<(int, Seq<char>)>, i: int, q: (int, Seq<char>))
    requires
        0 <= i < s.len(),
    ensures
        s.take(i + 1).contains(q) == (s.take(i).contains(q) || s[i] == q),
{
    if s.take(i + 1).contains(q) {
        let j = choose|j: int| 0 <= j < s.take(i + 1).len() && #[trigger] s.take(i + 1)[j] == q;
        if j < i {
            assert(s.take(i)[j] == q);
        }
    }
    if s.take(i).contains(q) {
        let j = choose|j: int| 0 <= j < s.take(i).len() && #[trigger] s.take(i)[j] == q;
        assert(s.take(i + 1)[j] == q);
    }
    if s[i] == q {
        assert(s.take(i + 1)[i] == q);
    }
}

proof fn lemma_lookup_some(entries: Seq<(StylePos, StyleId)>, l: int, k: (int, Seq<char>))
    requires
        0 <= l < entries.len(),
        pos_view(entries[l].0) == k,
    ensures
        lookup(entries, k) is Some,
    decreases entries.len(),
{
    if pos_view(entries[0].0) != k {
        assert(entries.drop_first()[l - 1] == entries[l]);
        lemma_lookup_some(entries.drop_first(), l - 1, k);
    }
}

/// The views of a list of strings.
pub open spec fn string_views(v: Seq<String>) -> Seq<Seq<char>> {
    v.map_values(|x: String| x@)
}

/// The pattern of a `live_s!` call: its first group is the text of the
/// string literal given as the call's second argument.
pub const LIVE_S_PATTERN: &'static str = r##"(?s)live_s!\s*\(\s*.*?,\s*(?:r#"|")(.*?)(:?"#|")\s*\)"##;

/// The views of a list of optional strings.
pub open spec fn optional_string_views(v: Seq<Option<String>>) -> Seq<Option<Seq<char>>> {
    v.map_values(|x: Option<String>| match x {
        Some(t) => Some(t@),
        None => None,
    })
}

/// For each match of the regular expression `pattern` in `content`, in
/// order, the text of its first group where that group took part in the
/// match; `None` when `pattern` is not a valid regular expression.
pub uninterp spec fn regex_first_groups(pattern: Seq<char>, content: Seq<char>) -> Option<
    Seq<Option<Seq<char>>>,
>;

/// Compiles `pattern` with `regex::Regex::new` and runs `captures_iter`
/// over `content`, taking the first group of each match. The contract
/// names the result only; what a pattern matches is not restated.
#[verifier::external_body]
fn regex_first_groups_of(pattern: &str, content: &str) -> (r: Option<Vec<Option<String>>>)
    ensures
        match r {
            Some(v) => regex_first_groups(pattern@, content@) == Some(optional_string_views(v@)),
            None => regex_first_groups(pattern@, content@) is None,
        },
{
    let re = regex::Regex::new(pattern).ok()?;
    Some(re.captures_iter(content).map(|c| c.get(1).map(|m| m.as_str().to_string())).collect())
}

/// The blocks that the first groups `groups` of a search give: the groups
/// that took part in a match, in order; none when the search could not run.
pub open spec fn blocks_of(groups: Option<Seq<Option<Seq<char>>>>) -> Seq<Seq<char>> {
    match groups {
        Some(gs) => present(gs),
        None => Seq::empty(),
    }
}

/// The style blocks of the `live_s!` calls in the source text `content`, in
/// order: the text of the string literal given as the second argument of
/// each call.
pub open spec fn live_blocks(content: Seq<char>) -> Seq<Seq<char>> {
    blocks_of(regex_first_groups(LIVE_S_PATTERN@, content))
}

/// The blocks of a search for live style calls whose first groups are
/// `groups`: those groups that took part in a match, in order, and none
/// when the search could not run. (The pattern of the calls is valid and
/// its first group takes part in every match, so neither case drops a
/// block.)
pub fn blocks_from_groups(groups: Option<Vec<Option<String>>>) -> (blocks: Vec<String>)
    ensures
        string_views(blocks@) == blocks_of(
            match groups {
                Some(v) => Some(optional_string_views(v@)),
                None => None,
            },
        ),
{
    match groups {
        None => Vec::new(),
        Some(v) => {
            let ghost views = optional_string_views(v@);
            let mut blocks: Vec<String> = Vec::new();
            let n = v.len();
            let mut i: usize = 0;
            while i < n
                invariant
                    n == v@.len(),
                    i <= n,
                    views == optional_string_views(v@),
                    string_views(blocks@) == present(views.take(i as int)),
                decreases n - i,
            {
                assert(views.take(i + 1).drop_last() =~= views.take(i as int));
                match &v[i] {
                    Some(t) => {
                        blocks.push(t.clone());
                        assert(string_views(blocks@) =~= present(views.take(i as int)).push(t@));
                    },
                    None => {},
                }
                i += 1;
            }
            assert(views.take(n as int) =~= views);
            blocks
        },
    }
}

/// The style blocks of the `live_s!` calls in a source file, in order.
pub fn find_live_s_blocks(content: &str) -> (blocks: Vec<String>)
    ensures
        string_views(blocks@) == live_blocks(content@),
{
    let groups = regex_first_groups_of(LIVE_S_PATTERN, content);
    blocks_from_groups(groups)
}

/// The values that are present in `outs`, in order.
pub open spec fn present<S>(outs: Seq<Option<S>>) -> Seq<S>
    decreases outs.len(),
{
    if outs.len() == 0 {
        Seq::empty()
    } else {
        let rest = present(outs.drop_last());
        match outs.last() {
            Some(s) => rest.push(s),
            None => rest,
        }
    }
}

/// Whether `text` holds nothing but white space.
pub open spec fn blank_text(text: Seq<char>) -> bool {
    forall|i: int| 0 <= i < text.len() ==> is_white_space(#[trigger] text[i])
}

/// Whether `out` is what a style block `block` gives: the style that
/// `blank` makes for a blank block, else what `parse` makes of the block
/// (nothing when it rejects it).
pub open spec fn block_outcome<S, D: Fn() -> S, F: Fn(&String) -> Option<S>>(
    blank: D,
    parse: F,
    block: Seq<char>,
    out: Option<S>,
) -> bool {
    if blank_text(block) {
        out is Some && call_ensures(blank, (), out->0)
    } else {
        exists|t: String| t@ == block && call_ensures(parse, (&t,), out)
    }
}

/// The styles of the style blocks `blocks`, in order: for each block, the
/// style that `blank` makes if the block is blank, else what `parse` makes
/// of it; blocks that `parse` rejects give no style.
pub fn styles_from_blocks<S, D: Fn() -> S, F: Fn(&String) -> Option<S>>(
    blocks: &Vec<String>,
    blank: &D,
    parse: &F,
) -> (styles: Vec<S>)
    requires
        call_requires(*blank, ()),
        forall|t: String| call_requires(*parse, (&t,)),
    ensures
        exists|outs: Seq<Option<S>>|
            {
                &&& outs.len() == blocks@.len()
                &&& forall|i: int|
                    0 <= i < outs.len() ==> block_outcome(*blank, *parse, blocks@[i]@, #[trigger] outs[i])
                &&& styles@ == present(outs)
            },
{
    let mut styles: Vec<S> = Vec::new();
    let ghost mut outs: Seq<Option<S>> = Seq::empty();
    let n = blocks.len();
    let mut i: usize = 0;
    while i < n
        invariant
            n == blocks@.len(),
            i <= n,
            call_requires(*blank, ()),
            forall|t: String| call_requires(*parse, (&t,)),
            outs.len() == i,
            forall|j: int| 0 <= j < i ==> block_outcome(*blank, *parse, blocks@[j]@, #[trigger] outs[j]),
            styles@ == present(outs),
        decreases n - i,
    {
        let block = &blocks[i];
        if is_blank(block.as_str()) {
            let st = blank();
            proof {
                assert(present(outs.push(Some(st))) =~= present(outs).push(st)) by {
                    assert(outs.push(Some(st)).drop_last() =~= outs);
                }
                outs = outs.push(Some(st));
            }
            styles.push(st);
        } else {
            let parsed = parse(block);
            proof {
                assert(outs.push(parsed).drop_last() =~= outs);
                outs = outs.push(parsed);
            }
            match parsed {
                Some(st) => {
                    styles.push(st);
                },
                None => {},
            }
        }
        i += 1;
    }
    styles
}

/// The styles of the `live_s!` calls of a source file, in order: those of
/// its style blocks (see `styles_from_blocks`).
pub fn parse_styles_from_file_content<S, D: Fn() -> S, F: Fn(&String) -> Option<S>>(
    content: &str,
    blank: &D,
    parse: &F,
) -> (styles: Vec<S>)
    requires
        call_requires(*blank, ()),
        forall|t: String| call_requires(*parse, (&t,)),
    ensures
        exists|outs: Seq<Option<S>>|
            {
                &&& outs.len() == live_blocks(content@).len()
                &&& forall|i: int|
                    0 <= i < outs.len() ==> block_outcome(*blank, *parse, live_blocks(content@)[i], #[trigger] outs[i])
                &&& styles@ == present(outs)
            },
{
    let blocks = find_live_s_blocks(content);
    let styles = styles_from_blocks(&blocks, blank, parse);
    proof {
        let outs = choose|outs: Seq<Option<S>>|
            {
                &&& outs.len() == blocks@.len()
                &&& forall|i: int|
                    0 <= i < outs.len() ==> block_outcome(*blank, *parse, blocks@[i]@, #[trigger] outs[i])
                &&& styles@ == present(outs)
            };
        assert forall|i: int| 0 <= i < outs.len() implies block_outcome(
            *blank,
            *parse,
            live_blocks(content@)[i],
            #[trigger] outs[i],
        ) by {
            assert(string_views(blocks@)[i] == blocks@[i]@);
        }
    }
    styles
}

/// Whether `c` is white space in Unicode's sense (its `White_Space`
/// property), as `str::trim` strips it.
pub open spec fn is_white_space(c: char) -> bool {
    let n = c as u32;
    (9 <= n <= 13) || n == 32 || n == 0x85 || n == 0xA0 || n == 0x1680 || (0x2000 <= n <= 0x200A)
        || n == 0x2028 || n == 0x2029 || n == 0x202F || n == 0x205F || n == 0x3000
}

fn white_space(c: char) -> (b: bool)
    ensures
        b == is_white_space(c),
{
    let n = c as u32;
    (9 <= n && n <= 13) || n == 32 || n == 0x85 || n == 0xA0 || n == 0x1680 || (0x2000 <= n && n
        <= 0x200A) || n == 0x2028 || n == 0x2029 || n == 0x202F || n == 0x205F || n == 0x3000
}

/// Whether a style block holds nothing but white space; such a block stands
/// for the default style.
pub fn is_blank(block: &str) -> (b: bool)
    ensures
        b == forall|i: int| 0 <= i < block@.len() ==> is_white_space(#[trigger] block@[i]),
{
    broadcast use vstd::string::axiom_spec_iter;
    let mut blank = true;
    for c in it: block.chars()
        invariant
            it.seq() == block@,
            blank == forall|j: int| 0 <= j < it.index() ==> is_white_space(#[trigger] block@[j]),
    {
        if !white_space(c) {
            blank = false;
        }
    }
    blank
}

/// The position of the first byte `b` of `s` at or after `from`.
pub open spec fn find_byte(s: Seq<u8>, b: u8, from: int) -> Option<int>
    decreases s.len() - from,
{
    if from < 0 || from >= s.len() {
        None
    } else if s[from] == b {
        Some(from)
    } else {
        find_byte(s, b, from + 1)
    }
}

/// `t` without a leading `+`.
pub open spec fn strip_plus(t: Seq<u8>) -> Seq<u8> {
    if t.len() > 0 && t[0] == 43 {
        t.drop_first()
    } else {
        t
    }
}

/// The value of the decimal digits `d`: `None` unless there is at least one
/// digit, only digits, and the value fits in `usize`.
pub open spec fn digits_value(d: Seq<u8>) -> Option<nat> {
    if d.len() >= 1 && (forall|i: int| 0 <= i < d.len() ==> is_digit(#[trigger] d[i])) && decimal(d)
        <= usize::MAX {
        Some(decimal(d) as nat)
    } else {
        None
    }
}

/// The number that `t` writes as `usize::from_str` reads it: an optional
/// `+` and one or more decimal digits, of a value that fits in `usize`.
pub open spec fn usize_literal(t: Seq<u8>) -> Option<nat> {
    digits_value(strip_plus(t))
}

/// A line of the search for live style calls, `file:line:text`: the length
/// of the file name (up to the first colon) and the line number (up to the
/// next colon or the end); `None` when there is no colon or no valid line
/// number.
pub open spec fn match_line(s: Seq<u8>) -> Option<(int, nat)> {
    match find_byte(s, 58, 0) {
        Some(i) => {
            let end = match find_byte(s, 58, i + 1) {
                Some(j) => j,
                None => s.len() as int,
            };
            match usize_literal(s.subrange(i + 1, end)) {
                Some(n) => Some((i, n)),
                None => None,
            }
        },
        None => None,
    }
}

fn find_byte_exec(s: &[u8], b: u8, from: usize) -> (r: Option<usize>)
    ensures
        match r {
            Some(i) => find_byte(s@, b, from as int) == Some(i as int),
            None => find_byte(s@, b, from as int) is None,
        },
{
    let mut i = from;
    while i < s.len()
        invariant
            from <= i,
            find_byte(s@, b, from as int) == find_byte(s@, b, i as int),
        decreases s@.len() - i,
    {
        if s[i] == b {
            return Some(i);
        }
        i += 1;
    }
    None
}

proof fn lemma_find_byte_bounds(s: Seq<u8>, b: u8, from: int)
    ensures
        match find_byte(s, b, from) {
            Some(i) => 0 <= from <= i < s.len() && s[i] == b,
            None => true,
        },
    decreases s.len() - from,
{
    if 0 <= from < s.len() && s[from] != b {
        lemma_find_byte_bounds(s, b, from + 1);
    }
}

/// Reads the line number written in `s[from..to]` as `usize::from_str`
/// does.
fn read_usize(s: &[u8], from: usize, to: usize) -> (r: Option<usize>)
    requires
        from <= to <= s@.len(),
    ensures
        match r {
            Some(n) => usize_literal(s@.subrange(from as int, to as int)) == Some(n as nat),
            None => usize_literal(s@.subrange(from as int, to as int)) is None,
        },
{
    let ghost t = s@.subrange(from as int, to as int);
    let mut start = from;
    if start < to && s[start] == 43 {
        start += 1;
    }
    let ghost d = s@.subrange(start as int, to as int);
    assert(d =~= strip_plus(t));
    if start == to {
        return None;
    }
    let mut i = start;
    let mut value: usize = 0;
    let mut overflow = false;
    while i < to
        invariant
            start <= i <= to <= s@.len(),
            d == s@.subrange(start as int, to as int),
            t == s@.subrange(from as int, to as int),
            d == strip_plus(t),
            forall|k: int| start <= k < i ==> is_digit(#[trigger] s@[k]),
            !overflow ==> value == decimal(s@.subrange(start as int, i as int)),
            overflow ==> decimal(s@.subrange(start as int, i as int)) > usize::MAX,
        decreases to - i,
    {
        let c = s[i];
        if c < 48 || c > 57 {
            assert(d[i - start] == c);
            assert(!is_digit(d[i - start]));
            return None;
        }
        proof {
            let p = s@.subrange(start as int, i + 1);
            assert(p.drop_last() =~= s@.subrange(start as int, i as int));
            assert(p.last() == c);
            assert forall|k: int| 0 <= k < p.drop_last().len() implies is_digit(#[trigger] p.drop_last()[k]) by {
                assert(p.drop_last()[k] == s@[start + k]);
            }
            lemma_decimal_nonneg_digits(p.drop_last());
        }
        if !overflow {
            match value.checked_mul(10) {
                Some(v) => match v.checked_add((c - 48) as usize) {
                    Some(w) => {
                        value = w;
                    },
                    None => {
                        overflow = true;
                    },
                },
                None => {
                    overflow = true;
                },
            }
        }
        i += 1;
    }
    assert(s@.subrange(start as int, i as int) =~= d);
    assert forall|k: int| 0 <= k < d.len() implies is_digit(#[trigger] d[k]) by {
        assert(d[k] == s@[start + k]);
    }
    if overflow {
        None
    } else {
        Some(value)
    }
}

proof fn lemma_decimal_nonneg_digits(s: Seq<u8>)
    requires
        forall|i: int| 0 <= i < s.len() ==> is_digit(#[trigger] s[i]),
    ensures
        decimal(s) >= 0,
    decreases s.len(),
{
    if s.len() > 0 {
        assert forall|i: int| 0 <= i < s.drop_last().len() implies is_digit(#[trigger] s.drop_last()[i]) by {
            assert(s.drop_last()[i] == s[i]);
        }
        lemma_decimal_nonneg_digits(s.drop_last());
    }
}

/// Reads a line of the search for live style calls, `file:line:text`: the
/// length of the file name and the line number.
pub fn parse_match_line(line: &[u8]) -> (r: Option<(usize, usize)>)
    ensures
        match r {
            Some((i, n)) => match_line(line@) == Some((i as int, n as nat)),
            None => match_line(line@) is None,
        },
{
    let _len = line.len();
    match find_byte_exec(line, 58, 0) {
        Some(i) => {
            proof {
                lemma_find_byte_bounds(line@, 58, 0);
                lemma_find_byte_bounds(line@, 58, i + 1);
            }
            assert(i < line@.len());
            let end = match find_byte_exec(line, 58, i + 1) {
                Some(j) => j,
                None => line.len(),
            };
            match read_usize(line, i + 1, end) {
                Some(n) => Some((i, n)),
                None => None,
            }
        },
        None => None,
    }
}

/// Whether `content` holds `pattern` somewhere.
pub open spec fn holds(content: Seq<u8>, pattern: Seq<u8>) -> bool {
    exists|i: int| 0 <= i <= content.len() - pattern.len() && #[trigger] content.subrange(i, i + pattern.len()) == pattern
}

/// The name of the live style macro, `live_s!`.
pub open spec fn live_macro() -> Seq<u8> {
    seq![108u8, 105u8, 118u8, 101u8, 95u8, 115u8, 33u8]
}

/// Whether a source file's text holds a call of the live style macro, so
/// that its styles are read again when it changes.
pub fn contains_live_styles(content: &[u8]) -> (b: bool)
    ensures
        b == holds(content@, live_macro()),
{
    let pat: [u8; 7] = [108u8, 105u8, 118u8, 101u8, 95u8, 115u8, 33u8];
    assert(pat@ =~= live_macro());
    let n = content.len();
    if n < 7 {
        return false;
    }
    let mut i: usize = 0;
    while i <= n - 7
        invariant
            n == content@.len(),
            n >= 7,
            pat@ == live_macro(),
            forall|k: int| 0 <= k < i ==> #[trigger] content@.subrange(k, k + 7) != live_macro(),
        decreases n - 7 - i + 1,
    {
        let mut j: usize = 0;
        while j < 7 && content[i + j] == pat[j]
            invariant
                i + 7 <= n,
                n == content@.len(),
                j <= 7,
                pat@ == live_macro(),
                forall|l: int| 0 <= l < j ==> content@[i + l] == pat@[l],
            decreases 7 - j,
        {
            j += 1;
        }
        if j == 7 {
            assert(content@.subrange(i as int, i + 7) =~= live_macro());
            return true;
        }
        assert(content@.subrange(i as int, i + 7)[j as int] != live_macro()[j as int]);
        i += 1;
    }
    false
}

} // verus!

verus! {

/// The style that the first entry of `entries` for block `k` holds.
pub open spec fn style_of<S>(entries: Seq<(StyleId, S)>, k: (Seq<char>, int)) -> Option<S>
    decreases entries.len(),
{
    if entries.len() == 0 {
        None
    } else if id_view(entries[0].0) == k {
        Some(entries[0].1)
    } else {
        style_of(entries.drop_first(), k)
    }
}

/// The parsed styles of the style blocks, by block.
pub struct StyleCache<S> {
    pub styles: Vec<(StyleId, S)>,
    pub path: String,
}

proof fn lemma_style_of_skip<S>(entries: Seq<(StyleId, S)>, j: int, k: (Seq<char>, int))
    requires
        0 <= j < entries.len(),
        forall|l: int| 0 <= l < j ==> id_view(#[trigger] entries[l].0) != k,
    ensures
        style_of(entries, k) == style_of(entries.skip(j), k),
    decreases j,
{
    if j > 0 {
        assert(entries.drop_first().skip(j - 1) =~= entries.skip(j));
        assert forall|l: int| 0 <= l < j - 1 implies id_view(#[trigger] entries.drop_first()[l].0) != k by {
            assert(entries.drop_first()[l] == entries[l + 1]);
        }
        lemma_style_of_skip(entries.drop_first(), j - 1, k);
    } else {
        assert(entries.skip(0) =~= entries);
    }
}

proof fn lemma_style_of_absent<S>(entries: Seq<(StyleId, S)>, k: (Seq<char>, int))
    requires
        forall|l: int| 0 <= l < entries.len() ==> id_view(#[trigger] entries[l].0) != k,
    ensures
        style_of(entries, k) is None,
    decreases entries.len(),
{
    if entries.len() > 0 {
        assert forall|l: int| 0 <= l < entries.len() - 1 implies id_view(#[trigger] entries.drop_first()[l].0) != k by {
            assert(entries.drop_first()[l] == entries[l + 1]);
        }
        lemma_style_of_absent(entries.drop_first(), k);
    }
}

proof fn lemma_style_of_update<S>(entries: Seq<(StyleId, S)>, j: int, s: S, k: (Seq<char>, int))
    requires
        0 <= j < entries.len(),
        forall|l: int| 0 <= l < j ==> id_view(#[trigger] entries[l].0) != id_view(entries[j].0),
    ensures
        style_of(entries.update(j, (entries[j].0, s)), k) == if k == id_view(entries[j].0) {
            Some(s)
        } else {
            style_of(entries, k)
        },
    decreases j,
{
    let u = entries.update(j, (entries[j].0, s));
    if j > 0 {
        assert(u.drop_first() =~= entries.drop_first().update(j - 1, (entries[j].0, s)));
        assert forall|l: int| 0 <= l < j - 1 implies id_view(#[trigger] entries.drop_first()[l].0)
            != id_view(entries.drop_first()[j - 1].0) by {
            assert(entries.drop_first()[l] == entries[l + 1]);
        }
        lemma_style_of_update(entries.drop_first(), j - 1, s, k);
        assert(u[0] == entries[0]);
    } else {
        assert(u.drop_first() =~= entries.drop_first());
        assert(u[0] == (entries[0].0, s));
    }
}

proof fn lemma_style_of_push<S>(entries: Seq<(StyleId, S)>, e: (StyleId, S), k: (Seq<char>, int))
    requires
        forall|l: int| 0 <= l < entries.len() ==> id_view(#[trigger] entries[l].0) != id_view(e.0),
    ensures
        style_of(entries.push(e), k) == if k == id_view(e.0) {
            Some(e.1)
        } else {
            style_of(entries, k)
        },
    decreases entries.len(),
{
    if entries.len() > 0 {
        assert(entries.push(e)[0] == entries[0]);
        assert(entries.push(e).drop_first() =~= entries.drop_first().push(e));
        assert forall|l: int| 0 <= l < entries.drop_first().len() implies id_view(
            #[trigger] entries.drop_first()[l].0,
        ) != id_view(e.0) by {
            assert(entries.drop_first()[l] == entries[l + 1]);
        }
        lemma_style_of_push(entries.drop_first(), e, k);
    } else {
        assert(entries.push(e)[0] == e);
        assert(entries.push(e).drop_first() =~= Seq::<(StyleId, S)>::empty());
        assert(style_of(Seq::<(StyleId, S)>::empty(), k) is None);
        assert(entries =~= Seq::<(StyleId, S)>::empty());
    }
}

impl<S> StyleCache<S> {
    /// An empty cache for the sources under `path`.
    pub fn new(path: String) -> (c: StyleCache<S>)
        ensures
            c.styles@.len() == 0,
            c.path@ == path@,
    {
        StyleCache { styles: Vec::new(), path }
    }

    /// Sets the root path of the sources.
    pub fn set_path(&mut self, path: String)
        ensures
            final(self).path@ == path@,
            final(self).styles@ == old(self).styles@,
    {
        self.path = path;
    }

    /// The position of the entry for block `id`, if there is one.
    fn position(&self, id: &StyleId) -> (r: Option<usize>)
        ensures
            match r {
                Some(j) => j < self.styles@.len() && id_view(self.styles@[j as int].0) == id_view(
                    *id,
                ) && forall|l: int|
                    0 <= l < j ==> id_view(#[trigger] self.styles@[l].0) != id_view(*id),
                None => forall|l: int|
                    0 <= l < self.styles@.len() ==> id_view(#[trigger] self.styles@[l].0) != id_view(
                        *id,
                    ),
            },
    {
        let mut j: usize = 0;
        while j < self.styles.len()
            invariant
                j <= self.styles@.len(),
                forall|l: int| 0 <= l < j ==> id_view(#[trigger] self.styles@[l].0) != id_view(*id),
            decreases self.styles@.len() - j,
        {
            if self.styles[j].0.same(id) {
                return Some(j);
            }
            j += 1;
        }
        None
    }

    /// Stores `style` for block `id`, replacing what was stored for it.
    fn put(&mut self, id: StyleId, style: S)
        ensures
            forall|k: (Seq<char>, int)|
                #![trigger style_of(final(self).styles@, k)]
                style_of(final(self).styles@, k) == if k == id_view(id) {
                    Some(style)
                } else {
                    style_of(old(self).styles@, k)
                },
            final(self).path == old(self).path,
    {
        match self.position(&id) {
            Some(j) => {
                let ghost before = self.styles@;
                self.styles[j].1 = style;
                proof {
                    assert(self.styles@ =~= before.update(j as int, (before[j as int].0, style)));
                    assert forall|k: (Seq<char>, int)| #![trigger style_of(self.styles@, k)]
                        style_of(self.styles@, k) == if k == id_view(id) {
                            Some(style)
                        } else {
                            style_of(before, k)
                        } by {
                        lemma_style_of_update(before, j as int, style, k);
                    }
                }
            },
            None => {
                let ghost before = self.styles@;
                let ghost e = (id, style);
                self.styles.push((id, style));
                proof {
                    assert forall|k: (Seq<char>, int)| #![trigger style_of(self.styles@, k)]
                        style_of(self.styles@, k) == if k == id_view(e.0) {
                            Some(e.1)
                        } else {
                            style_of(before, k)
                        } by {
                        lemma_style_of_push(before, e, k);
                    }
                }
            },
        }
    }

    /// Whether a style is stored for block `id`.
    pub fn contains(&self, id: &StyleId) -> (b: bool)
        ensures
            b == style_of(self.styles@, id_view(*id)) is Some,
    {
        match self.position(id) {
            Some(j) => {
                proof {
                    lemma_style_of_skip(self.styles@, j as int, id_view(*id));
                    assert(self.styles@.skip(j as int)[0] == self.styles@[j as int]);
                }
                true
            },
            None => {
                proof {
                    lemma_style_of_absent(self.styles@, id_view(*id));
                }
                false
            },
        }
    }

    /// Stores the styles parsed from the blocks of `file`: the i-th style
    /// becomes the style of the i-th block of the file.
    pub fn refresh_styles(&mut self, file: String, styles: Vec<S>)
        ensures
            forall|k: (Seq<char>, int)|
                #![trigger style_of(final(self).styles@, k)]
                style_of(final(self).styles@, k) == if k.0 == file@ && 0 <= k.1 < styles@.len() {
                    Some(styles@[k.1])
                } else {
                    style_of(old(self).styles@, k)
                },
            final(self).path == old(self).path,
    {
        let ghost orig = styles@;
        let n = styles.len();
        let mut i: usize = 0;
        for style in it: styles
            invariant
                it.seq() == orig,
                i == it.index(),
                i <= orig.len(),
                n == orig.len(),
                forall|k: (Seq<char>, int)|
                    #![trigger style_of(self.styles@, k)]
                    style_of(self.styles@, k) == if k.0 == file@ && 0 <= k.1 < i {
                        Some(orig[k.1])
                    } else {
                        style_of(old(self).styles@, k)
                    },
                self.path == old(self).path,
        {
            assert(i < orig.len());
            self.put(StyleId { file: file.clone(), id: i }, style);
            i += 1;
        }
    }

    /// Stores `style` for block `id` if nothing is stored for it yet.
    /// Returns `Some(())` when it was stored, `None` when the block already
    /// had a style, which is then kept.
    pub fn init_style(&mut self, id: &StyleId, style: S) -> (r: Option<()>)
        ensures
            r is Some <==> style_of(old(self).styles@, id_view(*id)) is None,
            forall|k: (Seq<char>, int)|
                #![trigger style_of(final(self).styles@, k)]
                style_of(final(self).styles@, k) == if k == id_view(*id) && r is Some {
                    Some(style)
                } else {
                    style_of(old(self).styles@, k)
                },
            final(self).path == old(self).path,
    {
        if !self.contains(id) {
            self.put(id.clone(), style);
            Some(())
        } else {
            None
        }
    }
}

impl<S: Clone> StyleCache<S> {
    /// A copy of the style stored for block `id`, if there is one.
    pub fn get_style(&self, id: &StyleId) -> (r: Option<S>)
        ensures
            match style_of(self.styles@, id_view(*id)) {
                Some(s) => r is Some && cloned(s, r.unwrap()),
                None => r is None,
            },
    {
        match self.position(id) {
            Some(j) => {
                proof {
                    lemma_style_of_skip(self.styles@, j as int, id_view(*id));
                    assert(self.styles@.skip(j as int)[0] == self.styles@[j as int]);
                }
                Some(self.styles[j].1.clone())
            },
            None => {
                proof {
                    lemma_style_of_absent(self.styles@, id_view(*id));
                }
                None
            },
        }
    }
}

/// The style for the `live_s!` call at `pos`: the cached style of the block
/// that the call reads, after storing `initial` for that block if nothing
/// was cached for it yet.
pub fn live_style<S: Clone>(center: &StyleCenter, cache: &mut StyleCache<S>, pos: &StylePos, initial: S) -> (s: S)
    requires
        lookup(center.initial_file_haystack@, pos_view(*pos)) is Some,
    ensures
        ({
            let k = lookup(center.initial_file_haystack@, pos_view(*pos)).unwrap();
            &&& forall|q: (Seq<char>, int)|
                #![trigger style_of(final(cache).styles@, q)]
                style_of(final(cache).styles@, q) == if q == k && style_of(old(cache).styles@, k) is None {
                    Some(initial)
                } else {
                    style_of(old(cache).styles@, q)
                }
            &&& style_of(final(cache).styles@, k) is Some
            &&& cloned(style_of(final(cache).styles@, k).unwrap(), s)
        }),
{
    let id = center.get_id(pos).unwrap();
    match cache.get_style(&id) {
        Some(s) => s,
        None => {
            let _ = cache.init_style(&id, initial);
            cache.get_style(&id).unwrap()
        },
    }
}

/// The position of the last `.` in `name`, if there is one.
pub open spec fn last_dot(name: Seq<u8>) -> Option<int>
    decreases name.len(),
{
    if name.len() == 0 {
        None
    } else if name.last() == 46 {
        Some(name.len() - 1)
    } else {
        last_dot(name.drop_last())
    }
}

/// The extension of the file name `name`: what follows its last `.`; none
/// when it has no `.` or its only `.` starts the name.
pub open spec fn extension_of(name: Seq<u8>) -> Option<Seq<u8>> {
    match last_dot(name) {
        Some(i) => if i > 0 {
            Some(name.skip(i + 1))
        } else {
            None
        },
        None => None,
    }
}

/// Whether the file name `name` is that of a Rust source, by its extension
/// `rs`; `None` when the name has no extension.
pub fn rust_source_extension(name: &[u8]) -> (r: Option<bool>)
    ensures
        r == match extension_of(name@) {
            Some(e) => Some(e == seq![114u8, 115u8]),
            None => None::<bool>,
        },
{
    let n = name.len();
    let mut i: usize = n;
    assert(name@.take(n as int) =~= name@);
    while i > 0 && name[i - 1] != 46
        invariant
            n == name@.len(),
            i <= n,
            last_dot(name@) == last_dot(name@.take(i as int)),
        decreases i,
    {
        assert(name@.take(i as int).drop_last() =~= name@.take(i - 1));
        i -= 1;
    }
    if i == 0 {
        assert(name@.take(0) =~= Seq::<u8>::empty());
        return None;
    }
    assert(name@.take(i as int).last() == 46u8);
    let dot = i - 1;
    if dot == 0 {
        return None;
    }
    let is_rs = n - i == 2 && name[i] == 114 && name[i + 1] == 115;
    assert(is_rs == (name@.skip(i as int) =~= seq![114u8, 115u8]));
    Some(is_rs)
}

} // verus!
