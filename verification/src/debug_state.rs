//! Descriptions of the widget tree for testing, debugging and inspection.
use vstd::prelude::*;

use crate::id::{decimal_string, decimal_text};
use crate::tree::ElementId;

verus! {

/// A description of a widget and its children, meant for testing and
/// debugging.
pub struct DebugState {
    /// The widget's unique id.
    pub id: ElementId,
    /// The widget's type as a human-readable string.
    pub display_name: String,
    /// If a widget has a "central" value (for instance, a textbox's
    /// contents), it is stored here.
    pub main_value: String,
    /// Untyped values that reveal useful information about the widget, by
    /// name; a name stands at most once (`names_distinct`), as in a map.
    pub other_values: Vec<(String, String)>,
    /// Debug info of child widgets.
    pub children: Vec<DebugState>,
}

/// The first description with the given id in `d`, searching `d` and then
/// its children in order, depth first.
pub open spec fn find_state(d: DebugState, id: ElementId) -> Option<DebugState>
    decreases d, 0nat,
{
    if d.id == id {
        Some(d)
    } else {
        find_in_states(d.children@, id)
    }
}

/// The first description with the given id among the trees `ds`, in order.
pub open spec fn find_in_states(ds: Seq<DebugState>, id: ElementId) -> Option<DebugState>
    decreases ds, ds.len(),
{
    if ds.len() == 0 {
        None
    } else {
        match find_in_states(ds.drop_last(), id) {
            Some(f) => Some(f),
            None => find_state(ds.last(), id),
        }
    }
}

impl DebugState {
    /// Whether the widget has children.
    pub fn has_children(&self) -> (b: bool)
        ensures
            b == (self.children@.len() > 0),
    {
        self.children.len() > 0
    }

    /// The description of the widget with the given id in this tree, the
    /// first one depth first.
    pub fn debug_state_for_id(&self, id: ElementId) -> (r: Option<&DebugState>)
        ensures
            match r {
                Some(d) => find_state(*self, id) == Some(*d),
                None => find_state(*self, id) is None,
            },
        decreases self, 1nat,
    {
        if self.id == id {
            return Some(self);
        }
        let n = self.children.len();
        let mut i: usize = 0;
        while i < n
            invariant
                n == self.children@.len(),
                i <= n,
                self.id != id,
                find_in_states(self.children@.take(i as int), id) is None,
            decreases n - i,
        {
            assert(self.children@.take(i + 1).drop_last() =~= self.children@.take(i as int));
            match self.children[i].debug_state_for_id(id) {
                Some(found) => {
                    proof {
                        lemma_find_prefix(self.children@, i as int + 1, id);
                    }
                    return Some(found);
                },
                None => {},
            }
            i += 1;
        }
        assert(self.children@.take(n as int) =~= self.children@);
        None
    }
}

/// How a description is printed for debugging.
#[derive(Debug, Clone, Copy, PartialEq, Eq, Structural)]
pub enum DebugShape {
    /// Only the name: nothing else to show.
    Name,
    /// The name with the main value, as a one-field tuple.
    NameAndValue,
    /// The name with the children, as a tuple.
    Children,
    /// The name with every field: the main value if any, the number of
    /// children, the other values sorted by name, and the children if any.
    Struct,
}

/// The nodes of the trees `ds` in depth-first order, each with its depth
/// counted from `level`.
pub open spec fn preorder_all(ds: Seq<DebugState>, level: int) -> Seq<(DebugState, int)>
    decreases ds, ds.len(),
{
    if ds.len() == 0 {
        Seq::empty()
    } else {
        preorder_all(ds.drop_last(), level) + preorder(ds.last(), level)
    }
}

/// The nodes of `d` in depth-first order, each with its depth counted from
/// `level`.
pub open spec fn preorder(d: DebugState, level: int) -> Seq<(DebugState, int)>
    decreases d, 0nat,
{
    seq![(d, level)] + preorder_all(d.children@, level + 1)
}

impl DebugState {
    /// The shape in which the description is printed: the name alone when
    /// there are no other values, no children and no main value; with the
    /// main value when there is only that; with the children when there are
    /// no other values and no main value; every field otherwise.
    pub fn debug_shape(&self) -> (shape: DebugShape)
        ensures
            shape == if self.other_values@.len() == 0 && self.children@.len() == 0
                && self.main_value@.len() == 0 {
                DebugShape::Name
            } else if self.other_values@.len() == 0 && self.children@.len() == 0 {
                DebugShape::NameAndValue
            } else if self.other_values@.len() == 0 && self.main_value@.len() == 0 {
                DebugShape::Children
            } else {
                DebugShape::Struct
            },
    {
        let no_values = self.other_values.len() == 0;
        let no_children = self.children.len() == 0;
        let no_main = self.main_value.as_str().is_empty();
        if no_values && no_children && no_main {
            DebugShape::Name
        } else if no_values && no_children {
            DebugShape::NameAndValue
        } else if no_values && no_main {
            DebugShape::Children
        } else {
            DebugShape::Struct
        }
    }

    /// Calls `visitor` on each node of the tree in depth-first order with its
    /// depth counted from `level`, and returns what it returned.
    pub fn visit<R, F: Fn(&DebugState, usize) -> R>(&self, visitor: &F, level: usize) -> (r: Vec<R>)
        requires
            forall|d: DebugState, l: usize| call_requires(*visitor, (&d, l)),
            level + height(*self) <= usize::MAX,
        ensures
            r@.len() == preorder(*self, level as int).len(),
            forall|i: int|
                0 <= i < r@.len() ==> call_ensures(
                    *visitor,
                    (&preorder(*self, level as int)[i].0, preorder(*self, level as int)[i].1 as usize),
                    #[trigger] r@[i],
                ),
        decreases self, 1nat,
    {
        let mut result: Vec<R> = Vec::new();
        result.push(visitor(self, level));
        let n = self.children.len();
        let mut i: usize = 0;
        while i < n
            invariant
                n == self.children@.len(),
                i <= n,
                level + height(*self) <= usize::MAX,
                forall|d: DebugState, l: usize| call_requires(*visitor, (&d, l)),
                result@.len() == 1 + preorder_all(self.children@.take(i as int), level + 1).len(),
                forall|j: int|
                    0 <= j < result@.len() ==> call_ensures(
                        *visitor,
                        (
                            &(seq![(*self, level as int)] + preorder_all(self.children@.take(i as int), level + 1))[j].0,
                            (seq![(*self, level as int)] + preorder_all(self.children@.take(i as int), level + 1))[j].1 as usize,
                        ),
                        #[trigger] result@[j],
                    ),
            decreases n - i,
        {
            proof {
                lemma_heights_bound(self.children@, i as int);
            }
            let mut sub = self.children[i].visit(visitor, level + 1);
            let ghost before = result@;
            let ghost prev = seq![(*self, level as int)] + preorder_all(self.children@.take(i as int), level + 1);
            let ghost next = seq![(*self, level as int)] + preorder_all(self.children@.take(i + 1), level + 1);
            assert(self.children@.take(i + 1).drop_last() =~= self.children@.take(i as int));
            assert(next =~= prev + preorder(self.children@[i as int], level + 1));
            result.append(&mut sub);
            assert forall|j: int| 0 <= j < result@.len() implies call_ensures(
                *visitor,
                (&next[j].0, next[j].1 as usize),
                #[trigger] result@[j],
            ) by {
                if j < before.len() {
                    assert(result@[j] == before[j]);
                    assert(next[j] == prev[j]);
                } else {
                    assert(next[j] == preorder(self.children@[i as int], level + 1)[j - before.len()]);
                }
            }
            i += 1;
        }
        assert(self.children@.take(n as int) =~= self.children@);
        result
    }
}

/// Where the search finds a description in a prefix of `ds`, it finds the
/// same one in all of `ds`.
proof fn lemma_find_prefix(ds: Seq<DebugState>, k: int, id: ElementId)
    requires
        0 <= k <= ds.len(),
        find_in_states(ds.take(k), id) is Some,
    ensures
        find_in_states(ds, id) == find_in_states(ds.take(k), id),
    decreases ds.len() - k,
{
    if k < ds.len() {
        assert(ds.take(k + 1).drop_last() =~= ds.take(k));
        lemma_find_prefix(ds, k + 1, id);
    } else {
        assert(ds.take(k) =~= ds);
    }
}

/// The description of a widget in the inspector: the widget's description,
/// whether its children are shown, and its depth in the tree.
pub struct InspectDebugState {
    pub id: ElementId,
    pub display_name: String,
    pub main_value: String,
    pub other_values: Vec<(String, String)>,
    pub expanded: bool,
    pub level: usize,
    pub children: Vec<InspectDebugState>,
}

/// The height of a description tree: 1 for a leaf.
pub open spec fn height(d: DebugState) -> nat
    decreases d, 0nat,
{
    1 + heights(d.children@)
}

/// The greatest height among the trees `ds`, 0 for none.
pub open spec fn heights(ds: Seq<DebugState>) -> nat
    decreases ds, ds.len(),
{
    if ds.len() == 0 {
        0
    } else {
        let h = height(ds.last());
        let rest = heights(ds.drop_last());
        if h > rest {
            h
        } else {
            rest
        }
    }
}

/// Whether `r` describes `d` for the inspector at depth `level`: the same
/// id, name, values and children, all expanded, each child one level deeper.
pub open spec fn inspects(d: DebugState, level: int, r: InspectDebugState) -> bool
    decreases d,
{
    &&& r.id == d.id
    &&& r.display_name@ == d.display_name@
    &&& r.main_value@ == d.main_value@
    &&& r.other_values@ == d.other_values@
    &&& r.expanded
    &&& r.level == level
    &&& r.children@.len() == d.children@.len()
    &&& forall|i: int|
        0 <= i < d.children@.len() ==> inspects(#[trigger] d.children@[i], level + 1, r.children@[i])
}

/// Whether `new` is `old` with the expansion of every node with id `id`
/// flipped: a node with that id flips and keeps its children; any other
/// node passes the toggle on to its children.
pub open spec fn toggled(old: InspectDebugState, new: InspectDebugState, id: ElementId) -> bool
    decreases old,
{
    &&& new.id == old.id
    &&& new.display_name == old.display_name
    &&& new.main_value == old.main_value
    &&& new.other_values == old.other_values
    &&& new.level == old.level
    &&& if old.id == id {
        new.expanded == !old.expanded && new.children == old.children
    } else {
        &&& new.expanded == old.expanded
        &&& new.children@.len() == old.children@.len()
        &&& forall|i: int|
            0 <= i < old.children@.len() ==> toggled(
                #[trigger] old.children@[i],
                new.children@[i],
                id,
            )
    }
}

/// The nodes that the inspector shows, in order: a node, then, if it is
/// expanded, the nodes shown for each of its children.
pub open spec fn shown(d: InspectDebugState) -> Seq<InspectDebugState>
    decreases d, 0nat,
{
    seq![d] + if d.expanded {
        shown_all(d.children@)
    } else {
        Seq::empty()
    }
}

/// The nodes shown for the trees `ds`, in order.
pub open spec fn shown_all(ds: Seq<InspectDebugState>) -> Seq<InspectDebugState>
    decreases ds, ds.len(),
{
    if ds.len() == 0 {
        Seq::empty()
    } else {
        shown_all(ds.drop_last()) + shown(ds.last())
    }
}

fn copy_values(v: &Vec<(String, String)>) -> (c: Vec<(String, String)>)
    ensures
        c@ == v@,
{
    let mut c: Vec<(String, String)> = Vec::new();
    let mut i: usize = 0;
    while i < v.len()
        invariant
            i <= v@.len(),
            c@ == v@.take(i as int),
        decreases v@.len() - i,
    {
        let (k, x) = &v[i];
        c.push((k.clone(), x.clone()));
        assert(c@ =~= v@.take(i + 1));
        i += 1;
    }
    assert(v@.take(v@.len() as int) =~= v@);
    c
}

proof fn lemma_heights_bound(ds: Seq<DebugState>, i: int)
    requires
        0 <= i < ds.len(),
    ensures
        height(ds[i]) <= heights(ds),
    decreases ds.len(),
{
    if i < ds.len() - 1 {
        lemma_heights_bound(ds.drop_last(), i);
        assert(ds.drop_last()[i] == ds[i]);
    }
}

impl InspectDebugState {
    /// The inspector's description of `debug_state`, at depth 0.
    pub fn new(debug_state: &DebugState) -> (r: InspectDebugState)
        requires
            height(*debug_state) <= usize::MAX,
        ensures
            inspects(*debug_state, 0, r),
    {
        Self::new_with_level(debug_state, 0)
    }

    /// Whether the node has children.
    pub fn has_children(&self) -> (b: bool)
        ensures
            b == (self.children@.len() > 0),
    {
        self.children.len() > 0
    }

    /// The inspector's description of `debug_state` at depth `level`, with
    /// every node expanded.
    pub fn new_with_level(debug_state: &DebugState, level: usize) -> (r: InspectDebugState)
        requires
            level + height(*debug_state) <= usize::MAX,
        ensures
            inspects(*debug_state, level as int, r),
        decreases *debug_state,
    {
        let n = debug_state.children.len();
        let mut children: Vec<InspectDebugState> = Vec::new();
        let mut i: usize = 0;
        while i < n
            invariant
                n == debug_state.children@.len(),
                i <= n,
                level + height(*debug_state) <= usize::MAX,
                children@.len() == i,
                forall|j: int|
                    0 <= j < i ==> inspects(
                        #[trigger] debug_state.children@[j],
                        level + 1,
                        children@[j],
                    ),
            decreases n - i,
        {
            proof {
                lemma_heights_bound(debug_state.children@, i as int);
            }
            let c = Self::new_with_level(&debug_state.children[i], level + 1);
            children.push(c);
            i += 1;
        }
        InspectDebugState {
            id: debug_state.id,
            display_name: debug_state.display_name.clone(),
            main_value: debug_state.main_value.clone(),
            other_values: copy_values(&debug_state.other_values),
            expanded: true,
            level,
            children,
        }
    }

    /// Flips the expansion of the node with the given id; the search goes
    /// into the children of any other node.
    pub fn toggle(&mut self, id: ElementId)
        ensures
            toggled(*old(self), *final(self), id),
        decreases *old(self),
    {
        if self.id == id {
            self.expanded = !self.expanded;
            return;
        }
        let n = self.children.len();
        let mut i: usize = 0;
        while i < n
            invariant
                n == old(self).children@.len(),
                i <= n,
                old(self).id != id,
                self.id == old(self).id,
                self.display_name == old(self).display_name,
                self.main_value == old(self).main_value,
                self.other_values == old(self).other_values,
                self.level == old(self).level,
                self.expanded == old(self).expanded,
                self.children@.len() == n,
                forall|j: int|
                    0 <= j < i ==> toggled(#[trigger] old(self).children@[j], self.children@[j], id),
                forall|j: int| i <= j < n ==> #[trigger] self.children@[j] == old(self).children@[j],
            decreases n - i,
        {
            self.children[i].toggle(id);
            i += 1;
        }
    }

    /// The lines of the inspector: `line` applied to each shown node, in
    /// order.
    pub fn flatten<R, F: Fn(&InspectDebugState) -> R>(&self, line: &F) -> (lines: Vec<R>)
        requires
            forall|d: InspectDebugState| call_requires(*line, (&d,)),
        ensures
            lines@.len() == shown(*self).len(),
            forall|i: int|
                0 <= i < lines@.len() ==> call_ensures(*line, (&shown(*self)[i],), #[trigger] lines@[i]),
        decreases self, 1nat,
    {
        let mut result: Vec<R> = Vec::new();
        result.push(line(self));
        if self.expanded {
            let n = self.children.len();
            let mut i: usize = 0;
            while i < n
                invariant
                    n == self.children@.len(),
                    i <= n,
                    self.expanded,
                    forall|d: InspectDebugState| call_requires(*line, (&d,)),
                    result@.len() == 1 + shown_all(self.children@.take(i as int)).len(),
                    forall|j: int|
                        0 <= j < result@.len() ==> call_ensures(
                            *line,
                            (&(seq![*self] + shown_all(self.children@.take(i as int)))[j],),
                            #[trigger] result@[j],
                        ),
                decreases n - i,
            {
                let mut sub = self.children[i].flatten(line);
                let ghost before = result@;
                let ghost prev = seq![*self] + shown_all(self.children@.take(i as int));
                let ghost next = seq![*self] + shown_all(self.children@.take(i + 1));
                assert(self.children@.take(i + 1).drop_last() =~= self.children@.take(i as int));
                assert(next =~= prev + shown(self.children@[i as int]));
                result.append(&mut sub);
                assert forall|j: int| 0 <= j < result@.len() implies call_ensures(
                    *line,
                    (&next[j],),
                    #[trigger] result@[j],
                ) by {
                    if j < before.len() {
                        assert(result@[j] == before[j]);
                        assert(next[j] == prev[j]);
                    } else {
                        assert(next[j] == shown(self.children@[i as int])[j - before.len()]);
                    }
                }
                i += 1;
            }
            assert(self.children@.take(n as int) =~= self.children@);
        } else {
            assert(shown(*self) =~= seq![*self]);
        }
        result
    }
}

/// `n` spaces.
pub open spec fn spaces(n: nat) -> Seq<char> {
    Seq::new(n, |i: int| ' ')
}

/// The indent of an inspector row at depth `level`: four spaces a level,
/// and never less than one space.
pub open spec fn row_indent(level: nat) -> nat {
    if level == 0 {
        1
    } else {
        4 * level
    }
}

/// The mark of an inspector row: `-` for a node whose children are shown,
/// `+` for one whose children are hidden, a blank for a node without
/// children.
pub open spec fn row_mark(d: InspectDebugState) -> char {
    if d.children@.len() > 0 {
        if d.expanded {
            '-'
        } else {
            '+'
        }
    } else {
        ' '
    }
}

/// The label of the inspector row of `d`: the indent, the mark, a blank,
/// the name, then the id and the number of children in brackets, as in
/// `    + Button(id: 7, len: 2)`.
pub open spec fn row_label(d: InspectDebugState) -> Seq<char> {
    spaces(row_indent(d.level as nat)) + seq![row_mark(d), ' '] + d.display_name@ + seq![
        '(',
        'i',
        'd',
        ':',
        ' ',
    ] + decimal_text(d.id.0 as nat) + seq![',', ' ', 'l', 'e', 'n', ':', ' '] + decimal_text(
        d.children@.len(),
    ) + seq![')']
}

impl InspectDebugState {
    /// The label of the node's row in the inspector.
    pub fn label(&self) -> (s: String)
        ensures
            s@ == row_label(*self),
    {
        proof {
            reveal_strlit(" ");
            reveal_strlit("    ");
            reveal_strlit("- ");
            reveal_strlit("+ ");
            reveal_strlit("  ");
            reveal_strlit("(id: ");
            reveal_strlit(", len: ");
            reveal_strlit(")");
        }
        assert("    "@ =~= spaces(4));
        assert(" "@ =~= spaces(1));
        let mut s = String::new();
        if self.level == 0 {
            s.append(" ");
        } else {
            let mut i: usize = 0;
            while i < self.level
                invariant
                    i <= self.level,
                    "    "@ == spaces(4),
                    s@ == spaces(4 * i as nat),
                decreases self.level - i,
            {
                s.append("    ");
                assert(s@ =~= spaces(4 * i as nat) + spaces(4));
                assert(s@ =~= spaces(4 * (i + 1) as nat));
                i += 1;
            }
        }
        assert(s@ =~= spaces(row_indent(self.level as nat)));
        if self.children.len() > 0 {
            if self.expanded {
                s.append("- ");
            } else {
                s.append("+ ");
            }
        } else {
            s.append("  ");
        }
        s.append(self.display_name.as_str());
        s.append("(id: ");
        let id_text = decimal_string(self.id.0);
        s.append(id_text.as_str());
        s.append(", len: ");
        let len_text = decimal_string(self.children.len() as u64);
        s.append(len_text.as_str());
        s.append(")");
        assert(s@ =~= row_label(*self));
        s
    }

    /// The rows of the inspector: for each shown node, in order, its id and
    /// the label of its row.
    pub fn rows(&self) -> (rows: Vec<(ElementId, String)>)
        ensures
            rows@.len() == shown(*self).len(),
            forall|i: int|
                0 <= i < rows@.len() ==> (#[trigger] rows@[i]).0 == shown(*self)[i].id
                    && rows@[i].1@ == row_label(shown(*self)[i]),
    {
        let row = |d: &InspectDebugState| -> (r: (ElementId, String))
            ensures
                r.0 == d.id,
                r.1@ == row_label(*d),
            { (d.id, d.label()) };
        self.flatten(&row)
    }
}

/// Whether two inspector trees hold the same nodes: the same fields, and
/// children that are the same in turn.
pub open spec fn same_tree(a: InspectDebugState, b: InspectDebugState) -> bool
    decreases a,
{
    &&& a.id == b.id
    &&& a.display_name == b.display_name
    &&& a.main_value == b.main_value
    &&& a.other_values == b.other_values
    &&& a.expanded == b.expanded
    &&& a.level == b.level
    &&& a.children@.len() == b.children@.len()
    &&& forall|i: int|
        0 <= i < a.children@.len() ==> same_tree(#[trigger] a.children@[i], b.children@[i])
}

proof fn lemma_same_tree_refl(a: InspectDebugState)
    ensures
        same_tree(a, a),
    decreases a,
{
    assert forall|i: int| 0 <= i < a.children@.len() implies same_tree(
        #[trigger] a.children@[i],
        a.children@[i],
    ) by {
        lemma_same_tree_refl(a.children@[i]);
    }
}

/// Toggling the same node twice gives back the tree it started from.
pub proof fn lemma_toggle_twice(a: InspectDebugState, b: InspectDebugState, c: InspectDebugState, id: ElementId)
    requires
        toggled(a, b, id),
        toggled(b, c, id),
    ensures
        same_tree(a, c),
    decreases a,
{
    if a.id == id {
        lemma_same_tree_refl(a);
        assert forall|i: int| 0 <= i < a.children@.len() implies same_tree(
            #[trigger] a.children@[i],
            c.children@[i],
        ) by {
            lemma_same_tree_refl(a.children@[i]);
        }
    } else {
        assert forall|i: int| 0 <= i < a.children@.len() implies same_tree(
            #[trigger] a.children@[i],
            c.children@[i],
        ) by {
            assert(toggled(a.children@[i], b.children@[i], id));
            assert(toggled(b.children@[i], c.children@[i], id));
            lemma_toggle_twice(a.children@[i], b.children@[i], c.children@[i], id);
        }
    }
}

} // verus!
