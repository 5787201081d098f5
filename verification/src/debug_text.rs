//! The printed form of a widget description, as `{:?}` shows it: the name
//! alone, the name with the main value or with the children as a tuple, or
//! the name with every field as a struct.
use vstd::prelude::*;

use crate::debug_state::DebugState;
use crate::id::{decimal_string, decimal_text};

verus! {

/// The views of a list of named values.
pub open spec fn value_views(vs: Seq<(String, String)>) -> Seq<(Seq<char>, Seq<char>)> {
    vs.map_values(|p: (String, String)| (p.0@, p.1@))
}

/// Whether no two values of `vs` have the same name.
pub open spec fn distinct_names(vs: Seq<(Seq<char>, Seq<char>)>) -> bool {
    forall|i: int, j: int|
        0 <= i < vs.len() && 0 <= j < vs.len() && i != j ==> (#[trigger] vs[i]).0 != (#[trigger] vs[j]).0
}

/// Whether the description and all its descendants name each of their
/// values once.
pub open spec fn names_distinct(d: DebugState) -> bool
    decreases d, 0nat,
{
    &&& distinct_names(value_views(d.other_values@))
    &&& all_names_distinct(d.children@)
}

/// Whether each of the trees `ds` names each of its values once.
pub open spec fn all_names_distinct(ds: Seq<DebugState>) -> bool
    decreases ds, ds.len(),
{
    if ds.len() == 0 {
        true
    } else {
        all_names_distinct(ds.drop_last()) && names_distinct(ds.last())
    }
}

/// Whether `a` comes before `b` in the order of strings: character by
/// character, a prefix first.
pub open spec fn text_less(a: Seq<char>, b: Seq<char>) -> bool
    decreases a.len(),
{
    if a.len() == 0 {
        b.len() > 0
    } else if b.len() == 0 {
        false
    } else if a[0] != b[0] {
        (a[0] as int) < (b[0] as int)
    } else {
        text_less(a.drop_first(), b.drop_first())
    }
}

/// `sorted` with `x` put before the first value whose name comes after
/// `x`'s.
pub open spec fn insert_by_name(sorted: Seq<(Seq<char>, Seq<char>)>, x: (Seq<char>, Seq<char>)) -> Seq<
    (Seq<char>, Seq<char>),
>
    decreases sorted.len(),
{
    if sorted.len() == 0 {
        seq![x]
    } else if text_less(x.0, sorted[0].0) {
        seq![x] + sorted
    } else {
        seq![sorted[0]] + insert_by_name(sorted.drop_first(), x)
    }
}

/// The values `vs` sorted by name.
pub open spec fn sort_by_name(vs: Seq<(Seq<char>, Seq<char>)>) -> Seq<(Seq<char>, Seq<char>)>
    decreases vs.len(),
{
    if vs.len() == 0 {
        Seq::empty()
    } else {
        insert_by_name(sort_by_name(vs.drop_last()), vs.last())
    }
}

/// The text of `s` as `{:?}` prints a string: in double quotes, with the
/// characters that need it escaped.
pub uninterp spec fn debug_quoted(s: Seq<char>) -> Seq<char>;

/// `s` printed with `{:?}` (std's `Debug` for `str`). The contract names
/// the result only; the escapes are not restated.
#[verifier::external_body]
fn quoted(s: &str) -> (q: String)
    ensures
        q@ == debug_quoted(s@),
{
    format!("{:?}", s)
}

/// `parts` joined by a comma and a blank.
pub open spec fn join(parts: Seq<Seq<char>>) -> Seq<char>
    decreases parts.len(),
{
    if parts.len() == 0 {
        Seq::empty()
    } else if parts.len() == 1 {
        parts[0]
    } else {
        join(parts.drop_last()) + seq![',', ' '] + parts.last()
    }
}

/// The field `name: value`.
pub open spec fn field(name: Seq<char>, value: Seq<char>) -> Seq<char> {
    name + seq![':', ' '] + value
}

/// The fields of the named values `vs`, each value quoted.
pub open spec fn value_fields(vs: Seq<(Seq<char>, Seq<char>)>) -> Seq<Seq<char>> {
    vs.map_values(|p: (Seq<char>, Seq<char>)| field(p.0, debug_quoted(p.1)))
}

/// The printed form of `d`: the name alone when there are no other values,
/// no children and no main value; the name and the quoted main value as a
/// tuple when there is only the main value; the name and the children as a
/// tuple when there are no other values and no main value; otherwise the
/// name and, as a struct, the main value if any, the number of children,
/// the other values sorted by name, and the list of children if any.
pub open spec fn debug_text(d: DebugState) -> Seq<char>
    decreases d, 0nat,
{
    let name = d.display_name@;
    let no_values = d.other_values@.len() == 0;
    let no_children = d.children@.len() == 0;
    let no_main = d.main_value@.len() == 0;
    if no_values && no_children && no_main {
        name
    } else if no_values && no_children {
        name + seq!['('] + debug_quoted(d.main_value@) + seq![')']
    } else if no_values && no_main {
        name + seq!['('] + join(child_texts(d.children@)) + seq![')']
    } else {
        let main: Seq<Seq<char>> = if no_main {
            Seq::empty()
        } else {
            seq![field("_main_value_"@, debug_quoted(d.main_value@))]
        };
        let len = seq![field("child_len"@, decimal_text(d.children@.len()))];
        let values = value_fields(sort_by_name(value_views(d.other_values@)));
        let children: Seq<Seq<char>> = if no_children {
            Seq::empty()
        } else {
            seq![field("children"@, seq!['['] + join(child_texts(d.children@)) + seq![']'])]
        };
        name + seq![' ', '{', ' '] + join(main + len + values + children) + seq![' ', '}']
    }
}

/// The printed forms of the trees `ds`, in order.
pub open spec fn child_texts(ds: Seq<DebugState>) -> Seq<Seq<char>>
    decreases ds, ds.len(),
{
    if ds.len() == 0 {
        Seq::empty()
    } else {
        child_texts(ds.drop_last()).push(debug_text(ds.last()))
    }
}

/// The views of a list of strings.
pub open spec fn text_views(v: Seq<String>) -> Seq<Seq<char>> {
    v.map_values(|x: String| x@)
}

proof fn lemma_text_less_step(a: Seq<char>, b: Seq<char>, i: int)
    requires
        0 <= i < a.len(),
        i < b.len(),
        a[i] == b[i],
    ensures
        text_less(a.skip(i), b.skip(i)) == text_less(a.skip(i + 1), b.skip(i + 1)),
{
    assert(a.skip(i).drop_first() =~= a.skip(i + 1));
    assert(b.skip(i).drop_first() =~= b.skip(i + 1));
}

/// Whether the string `a` comes before the string `b`.
fn less_text(a: &str, b: &str) -> (r: bool)
    ensures
        r == text_less(a@, b@),
{
    let n = a.unicode_len();
    let m = b.unicode_len();
    let mut i: usize = 0;
    assert(a@.skip(0) =~= a@);
    assert(b@.skip(0) =~= b@);
    while i < n && i < m
        invariant
            n == a@.len(),
            m == b@.len(),
            i <= n,
            i <= m,
            text_less(a@, b@) == text_less(a@.skip(i as int), b@.skip(i as int)),
        decreases n - i,
    {
        let x = a.get_char(i);
        let y = b.get_char(i);
        if x != y {
            assert(a@.skip(i as int)[0] == x);
            assert(b@.skip(i as int)[0] == y);
            return (x as u32) < (y as u32);
        }
        proof {
            lemma_text_less_step(a@, b@, i as int);
        }
        i += 1;
    }
    if i == n {
        assert(a@.skip(i as int).len() == 0);
        i < m
    } else {
        assert(b@.skip(i as int).len() == 0);
        false
    }
}

/// Where `p` is the first position of `sorted` whose name comes after `x`'s,
/// putting `x` by name is putting it at `p`.
proof fn lemma_insert_at(sorted: Seq<(Seq<char>, Seq<char>)>, x: (Seq<char>, Seq<char>), p: int)
    requires
        0 <= p <= sorted.len(),
        forall|j: int| 0 <= j < p ==> !text_less(x.0, (#[trigger] sorted[j]).0),
        p < sorted.len() ==> text_less(x.0, sorted[p].0),
    ensures
        insert_by_name(sorted, x) == sorted.take(p) + seq![x] + sorted.skip(p),
    decreases sorted.len(),
{
    if sorted.len() == 0 {
        assert(sorted.take(p) + seq![x] + sorted.skip(p) =~= seq![x]);
    } else if p == 0 {
        assert(sorted.take(p) + seq![x] + sorted.skip(p) =~= seq![x] + sorted);
    } else {
        assert(!text_less(x.0, sorted[0].0));
        let rest = sorted.drop_first();
        assert forall|j: int| 0 <= j < p - 1 implies !text_less(x.0, (#[trigger] rest[j]).0) by {
            assert(rest[j] == sorted[j + 1]);
        }
        lemma_insert_at(rest, x, p - 1);
        assert(sorted.take(p) + seq![x] + sorted.skip(p) =~= seq![sorted[0]] + (rest.take(p - 1) + seq![x]
            + rest.skip(p - 1)));
    }
}

/// The values `vs` sorted by name; values with the same name keep their
/// order.
pub fn sort_values(vs: &Vec<(String, String)>) -> (sorted: Vec<(String, String)>)
    ensures
        value_views(sorted@) == sort_by_name(value_views(vs@)),
{
    let ghost views = value_views(vs@);
    let mut sorted: Vec<(String, String)> = Vec::new();
    let n = vs.len();
    let mut i: usize = 0;
    while i < n
        invariant
            n == vs@.len(),
            i <= n,
            views == value_views(vs@),
            value_views(sorted@) == sort_by_name(views.take(i as int)),
        decreases n - i,
    {
        let (k, v) = &vs[i];
        let ghost before = value_views(sorted@);
        let mut p: usize = 0;
        let len = sorted.len();
        while p < len && !less_text(k.as_str(), sorted[p].0.as_str())
            invariant
                len == sorted@.len(),
                p <= len,
                before == value_views(sorted@),
                forall|j: int| 0 <= j < p ==> !text_less(k@, (#[trigger] before[j]).0),
            decreases len - p,
        {
            p += 1;
        }
        proof {
            assert(views.take(i + 1).drop_last() =~= views.take(i as int));
            assert(views[i as int] == (k@, v@));
            lemma_insert_at(before, (k@, v@), p as int);
        }
        sorted.insert(p, (k.clone(), v.clone()));
        assert(value_views(sorted@) =~= before.take(p as int) + seq![(k@, v@)] + before.skip(p as int));
        i += 1;
    }
    assert(views.take(n as int) =~= views);
    sorted
}

/// `parts` joined by a comma and a blank.
fn join_strings(parts: &Vec<String>) -> (s: String)
    ensures
        s@ == join(text_views(parts@)),
{
    proof {
        reveal_strlit(", ");
    }
    let ghost views = text_views(parts@);
    let n = parts.len();
    if n == 0 {
        return String::new();
    }
    let mut s = parts[0].clone();
    assert(views.take(1) =~= seq![views[0]]);
    let mut i: usize = 1;
    while i < n
        invariant
            n == parts@.len(),
            1 <= i <= n,
            views == text_views(parts@),
            ", "@ == seq![',', ' '],
            s@ == join(views.take(i as int)),
        decreases n - i,
    {
        s.append(", ");
        s.append(parts[i].as_str());
        assert(views.take(i + 1).drop_last() =~= views.take(i as int));
        i += 1;
    }
    assert(views.take(n as int) =~= views);
    s
}

proof fn lemma_names_distinct_child(ds: Seq<DebugState>, i: int)
    requires
        all_names_distinct(ds),
        0 <= i < ds.len(),
    ensures
        names_distinct(ds[i]),
    decreases ds.len(),
{
    if i < ds.len() - 1 {
        lemma_names_distinct_child(ds.drop_last(), i);
        assert(ds.drop_last()[i] == ds[i]);
    }
}

impl DebugState {
    /// The printed form of the description, as `{:?}` shows it. Each
    /// description names each of its values once, as the keys of a map.
    pub fn debug_string(&self) -> (s: String)
        requires
            names_distinct(*self),
        ensures
            s@ == debug_text(*self),
        decreases self, 1nat,
    {
        proof {
            reveal_strlit("(");
            reveal_strlit(")");
            reveal_strlit(" { ");
            reveal_strlit(" }");
            reveal_strlit(": ");
            reveal_strlit("[");
            reveal_strlit("]");
            reveal_strlit(", ");
        }
        let no_values = self.other_values.len() == 0;
        let no_children = self.children.len() == 0;
        let no_main = self.main_value.as_str().is_empty();
        let mut s = self.display_name.clone();
        if no_values && no_children && no_main {
            return s;
        }
        if no_values && no_children {
            s.append("(");
            let q = quoted(self.main_value.as_str());
            s.append(q.as_str());
            s.append(")");
            return s;
        }
        let n = self.children.len();
        let mut texts: Vec<String> = Vec::new();
        let mut i: usize = 0;
        while i < n
            invariant
                n == self.children@.len(),
                i <= n,
                all_names_distinct(self.children@),
                text_views(texts@) == child_texts(self.children@.take(i as int)),
            decreases n - i,
        {
            proof {
                lemma_names_distinct_child(self.children@, i as int);
            }
            let t = self.children[i].debug_string();
            texts.push(t);
            assert(self.children@.take(i + 1).drop_last() =~= self.children@.take(i as int));
            assert(text_views(texts@) =~= child_texts(self.children@.take(i as int)).push(t@));
            i += 1;
        }
        assert(self.children@.take(n as int) =~= self.children@);
        let listed = join_strings(&texts);
        if no_values && no_main {
            s.append("(");
            s.append(listed.as_str());
            s.append(")");
            return s;
        }
        let ghost main_part: Seq<Seq<char>> = if no_main {
            Seq::empty()
        } else {
            seq![field("_main_value_"@, debug_quoted(self.main_value@))]
        };
        let ghost len_part = seq![field("child_len"@, decimal_text(self.children@.len()))];
        let mut fields: Vec<String> = Vec::new();
        if !no_main {
            let mut f = String::from_str("_main_value_");
            f.append(": ");
            let q = quoted(self.main_value.as_str());
            f.append(q.as_str());
            assert(f@ == field("_main_value_"@, debug_quoted(self.main_value@)));
            fields.push(f);
        }
        assert(text_views(fields@) =~= main_part);
        let mut f = String::from_str("child_len");
        f.append(": ");
        let len_text = decimal_string(n as u64);
        f.append(len_text.as_str());
        assert(f@ == field("child_len"@, decimal_text(self.children@.len())));
        fields.push(f);
        let ghost before_values = text_views(fields@);
        assert(before_values =~= main_part + len_part);
        let sorted = sort_values(&self.other_values);
        let ghost sorted_views = value_views(sorted@);
        let m = sorted.len();
        let mut j: usize = 0;
        while j < m
            invariant
                m == sorted@.len(),
                j <= m,
                sorted_views == value_views(sorted@),
                ": "@ == seq![':', ' '],
                text_views(fields@) == before_values + value_fields(sorted_views.take(j as int)),
            decreases m - j,
        {
            let (k, v) = &sorted[j];
            let mut f = k.clone();
            f.append(": ");
            let q = quoted(v.as_str());
            f.append(q.as_str());
            assert(f@ == field(k@, debug_quoted(v@)));
            assert(sorted_views[j as int] == (k@, v@));
            let ghost prev = text_views(fields@);
            fields.push(f);
            assert(text_views(fields@) =~= prev.push(f@));
            assert(value_fields(sorted_views.take(j + 1)) =~= value_fields(sorted_views.take(j as int)).push(
                field(k@, debug_quoted(v@)),
            ));
            assert(text_views(fields@) =~= before_values + value_fields(sorted_views.take(j + 1)));
            j += 1;
        }
        assert(sorted_views.take(m as int) =~= sorted_views);
        let ghost values_part = value_fields(sort_by_name(value_views(self.other_values@)));
        assert(text_views(fields@) =~= main_part + len_part + values_part);
        let ghost children_part: Seq<Seq<char>> = if no_children {
            Seq::empty()
        } else {
            seq![field("children"@, seq!['['] + join(child_texts(self.children@)) + seq![']'])]
        };
        if !no_children {
            let mut f = String::from_str("children");
            f.append(": ");
            f.append("[");
            f.append(listed.as_str());
            f.append("]");
            assert(f@ =~= field("children"@, seq!['['] + join(child_texts(self.children@)) + seq![']']));
            let ghost prev = text_views(fields@);
            fields.push(f);
            assert(text_views(fields@) =~= prev.push(f@));
        }
        assert(text_views(fields@) =~= main_part + len_part + values_part + children_part);
        let body = join_strings(&fields);
        s.append(" { ");
        s.append(body.as_str());
        s.append(" }");
        assert(s@ =~= self.display_name@ + seq![' ', '{', ' '] + join(
            main_part + len_part + values_part + children_part,
        ) + seq![' ', '}']);
        s
    }
}

} // verus!
