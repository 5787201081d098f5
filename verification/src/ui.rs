//! Keyed reconciliation of one level of the widget tree.
//!
//! A `Ui` walks the children of an element in the order in which the
//! program visits call locations. A node whose key comes up again is reused;
//! nodes that were skipped over are marked dead, and `cleanup_tree` drops the
//! dead ones and those that were not reached.
use vstd::prelude::*;

use vstd::std_specs::cmp::PartialEqSpec;

use crate::key::{Key, LocalKey};
use crate::tree::{Children, Element, ElementId, ElementState, Meoizee, StateHandle, StateNode};

verus! {

/// The position, at or after `i`, of the first occurrence of `k` in `keys`.
pub open spec fn first_from<K>(keys: Seq<K>, i: int, k: K) -> Option<int>
    decreases keys.len() - i,
{
    if i < 0 || i >= keys.len() {
        None
    } else if keys[i] == k {
        Some(i)
    } else {
        first_from(keys, i + 1, k)
    }
}

/// The keys of a list of remembered states.
pub open spec fn state_keys(s: Seq<StateNode>) -> Seq<Key> {
    s.map_values(|n: StateNode| n.key)
}

/// The list `s` with the nodes in `[lo, hi)` marked dead.
pub open spec fn states_marked_dead(s: Seq<StateNode>, lo: int, hi: int) -> Seq<StateNode> {
    Seq::new(
        s.len(),
        |j: int|
            if lo <= j < hi {
                StateNode { dead: true, ..s[j] }
            } else {
                s[j]
            },
    )
}

/// The live nodes of `s`, in order.
pub open spec fn live_states(s: Seq<StateNode>) -> Seq<StateNode>
    decreases s.len(),
{
    if s.len() == 0 {
        Seq::empty()
    } else if s.last().dead {
        live_states(s.drop_last())
    } else {
        live_states(s.drop_last()).push(s.last())
    }
}

/// The live entries of `s`, in order.
pub open spec fn live_memos<P>(s: Seq<Meoizee<P>>) -> Seq<Meoizee<P>>
    decreases s.len(),
{
    if s.len() == 0 {
        Seq::empty()
    } else if s.last().dead {
        live_memos(s.drop_last())
    } else {
        live_memos(s.drop_last()).push(s.last())
    }
}

/// The live elements of `s`, in order.
pub open spec fn live_elements<P>(s: Seq<Element<P>>) -> Seq<Element<P>>
    decreases s.len(),
{
    if s.len() == 0 {
        Seq::empty()
    } else if s.last().dead {
        live_elements(s.drop_last())
    } else {
        live_elements(s.drop_last()).push(s.last())
    }
}

/// Whether one of the first `n` elements of `s` is dead.
pub open spec fn any_dead<P>(s: Seq<Element<P>>, n: int) -> bool {
    exists|j: int| 0 <= j < n && j < s.len() && (#[trigger] s[j]).dead
}

/// What visiting the state at `key` does to the remembered states, the
/// cursor and the identity allocator, and what it returns: the handle and
/// whether the state is new.
pub open spec fn state_visit(states: Seq<StateNode>, cursor: int, next_id: u64, key: Key) -> (
    Seq<StateNode>,
    int,
    u64,
    StateHandle,
    bool,
) {
    match first_from(state_keys(states), cursor, key) {
        Some(i) => (states_marked_dead(states, cursor, i), i + 1, next_id, states[i].state, false),
        None => (
            states.insert(cursor, StateNode { key, state: StateHandle { id: next_id }, dead: false }),
            cursor + 1,
            (next_id + 1) as u64,
            StateHandle { id: next_id },
            true,
        ),
    }
}


/// The keys of a list of remembered component parameters.
pub open spec fn memo_keys<P>(s: Seq<Meoizee<P>>) -> Seq<Key> {
    s.map_values(|n: Meoizee<P>| n.key)
}

/// The list `s` with the entries in `[lo, hi)` marked dead.
pub open spec fn memos_marked_dead<P>(s: Seq<Meoizee<P>>, lo: int, hi: int) -> Seq<Meoizee<P>> {
    Seq::new(
        s.len(),
        |j: int|
            if lo <= j < hi {
                Meoizee { dead: true, ..s[j] }
            } else {
                s[j]
            },
    )
}

/// What visiting the memoized component at `key` with `params` does to the
/// remembered parameters and the cursor, and whether the parameters changed.
pub open spec fn memo_visit<P: PartialEq>(memos: Seq<Meoizee<P>>, cursor: int, key: Key, params: P) -> (
    Seq<Meoizee<P>>,
    int,
    bool,
) {
    match first_from(memo_keys(memos), cursor, key) {
        Some(i) => {
            let changed = !memos[i].val.eq_spec(&params);
            let marked = memos_marked_dead(memos, cursor, i);
            (
                if changed {
                    marked.update(i, Meoizee { val: params, ..marked[i] })
                } else {
                    marked
                },
                i + 1,
                changed,
            )
        },
        None => (memos.insert(cursor, Meoizee { key, val: params, dead: false }), cursor + 1, true),
    }
}


/// Where and how a render element is placed during a UI pass.
#[derive(Clone, Copy, Debug, PartialEq, Eq, Structural)]
pub enum RenderAction {
    /// Always create a new element at the given position.
    Insert(usize),
    /// Update the element with the given keys, searching from the given position.
    Update(usize),
    /// Reuse the element with the given keys after the cursor, or create one.
    Auto,
}

/// The part of an element that a visit reads or changes: its keys, whether it
/// is dead, and its layout state.
pub open spec fn element_view<P>(e: Element<P>) -> (Key, Seq<char>, bool, ElementState) {
    (e.key, e.local_key@, e.dead, e.state)
}

/// The views of a list of elements.
pub open spec fn element_views<P>(s: Seq<Element<P>>) -> Seq<(Key, Seq<char>, bool, ElementState)> {
    s.map_values(|e: Element<P>| element_view(e))
}

/// The keys of a list of element views.
pub open spec fn view_keys(s: Seq<(Key, Seq<char>, bool, ElementState)>) -> Seq<(Key, Seq<char>)> {
    s.map_values(|v: (Key, Seq<char>, bool, ElementState)| (v.0, v.1))
}

/// The views `s` with the entries in `[lo, hi)` marked dead.
pub open spec fn views_marked_dead(
    s: Seq<(Key, Seq<char>, bool, ElementState)>,
    lo: int,
    hi: int,
) -> Seq<(Key, Seq<char>, bool, ElementState)> {
    Seq::new(s.len(), |j: int| if lo <= j < hi { (s[j].0, s[j].1, true, s[j].3) } else { s[j] })
}

/// Where a visit starts searching.
pub open spec fn render_start(cursor: int, action: RenderAction) -> int {
    match action {
        RenderAction::Insert(at) => at as int,
        RenderAction::Update(at) => at as int,
        RenderAction::Auto => cursor,
    }
}

/// The outcome of visiting a render element.
#[derive(Clone, Copy, Debug, PartialEq, Eq, Structural)]
pub struct RenderVisit {
    /// The position of the element.
    pub index: usize,
    /// Whether the element was created by this visit.
    pub inserted: bool,
    /// Whether the element's object is to be updated and its content built.
    pub update: bool,
}

/// What visiting the element with keys `(key, local_key)` does to the views
/// of the elements, and what it returns.
pub open spec fn render_visit(
    views: Seq<(Key, Seq<char>, bool, ElementState)>,
    cursor: int,
    next_id: u64,
    need_update: bool,
    key: Key,
    local_key: Seq<char>,
    action: RenderAction,
) -> (Seq<(Key, Seq<char>, bool, ElementState)>, int, u64, RenderVisit) {
    let start = render_start(cursor, action);
    let found = first_from(view_keys(views), start, (key, local_key));
    let fresh = (key, local_key, false, ElementState::new_spec(ElementId(next_id)));
    let (r1, index, inserted) = if action is Insert || found is None {
        (views.insert(start, fresh), start, true)
    } else {
        (views, found.unwrap(), false)
    };
    let r2 = views_marked_dead(r1, start, index);
    let update = r2[index].3.request_update || need_update;
    let r3 = if update {
        r2.update(
            index,
            (r2[index].0, local_key, r2[index].2, ElementState { request_update: false, ..r2[index].3 }),
        )
    } else {
        r2
    };
    (
        r3,
        index + 1,
        if inserted { (next_id + 1) as u64 } else { next_id },
        RenderVisit { index: index as usize, inserted, update },
    )
}


/// When a visit updates the element it visits. An element that the visit
/// creates is always updated. An element that it finds is updated exactly
/// when the element asked for an update or the whole level is being
/// updated; so while the level is being updated, every visit updates its
/// element. Either way the element no longer asks for an update
/// afterwards (a skipped element did not ask); the element visited carries the keys asked for, and the cursor
/// moves just past it.
pub proof fn lemma_visit_updates(
    views: Seq<(Key, Seq<char>, bool, ElementState)>,
    cursor: int,
    next_id: u64,
    need_update: bool,
    key: Key,
    local_key: Seq<char>,
    action: RenderAction,
)
    requires
        0 <= render_start(cursor, action) <= views.len(),
        views.len() <= usize::MAX,
        action is Update ==> first_from(view_keys(views), render_start(cursor, action), (key, local_key))
            is Some,
    ensures
        ({
            let (v, c, n, out) = render_visit(views, cursor, next_id, need_update, key, local_key, action);
            &&& 0 <= out.index < v.len()
            &&& need_update ==> out.update
            &&& out.inserted ==> out.update
            &&& !out.inserted ==> out.index < views.len() && out.update == (
            views[out.index as int].3.request_update || need_update)
            &&& !v[out.index as int].3.request_update
            &&& v[out.index as int].0 == key
            &&& v[out.index as int].1 == local_key
            &&& c == out.index + 1
        }),
{
    let start = render_start(cursor, action);
    lemma_first_from_bounds(view_keys(views), start, (key, local_key));
    let found = first_from(view_keys(views), start, (key, local_key));
    let fresh = (key, local_key, false, ElementState::new_spec(ElementId(next_id)));
    if action is Insert || found is None {
        let r1 = views.insert(start, fresh);
        assert(r1[start] == fresh);
        let r2 = views_marked_dead(r1, start, start);
        assert(r2[start] == fresh);
    } else {
        let i = found.unwrap();
        assert(view_keys(views)[i] == (views[i].0, views[i].1));
        let r2 = views_marked_dead(views, start, i);
        assert(r2[i] == (views[i].0, views[i].1, true, views[i].3) || r2[i] == views[i]);
        assert(r2[i].3 == views[i].3);
    }
}

proof fn lemma_live_elements_all_live<P>(s: Seq<Element<P>>)
    requires
        !any_dead(s, s.len() as int),
    ensures
        live_elements(s) == s,
    decreases s.len(),
{
    if s.len() > 0 {
        assert(!s.last().dead) by {
            assert(s[s.len() - 1] == s.last());
        }
        assert forall|j: int| 0 <= j < s.drop_last().len() implies !(#[trigger] s.drop_last()[j]).dead by {
            assert(s.drop_last()[j] == s[j]);
        }
        lemma_live_elements_all_live(s.drop_last());
        assert(s.drop_last().push(s.last()) =~= s);
    }
}

proof fn lemma_first_from_bounds<K>(keys: Seq<K>, i: int, k: K)
    ensures
        match first_from(keys, i, k) {
            Some(j) => 0 <= i <= j < keys.len() && keys[j] == k && forall|l: int|
                i <= l < j ==> keys[l] != k,
            None => forall|l: int| i <= l < keys.len() && 0 <= i ==> keys[l] != k,
        },
    decreases keys.len() - i,
{
    if 0 <= i < keys.len() && keys[i] != k {
        lemma_first_from_bounds(keys, i + 1, k);
    }
}


fn retain_live_states(v: Vec<StateNode>) -> (r: Vec<StateNode>)
    ensures
        r@ == live_states(v@),
{
    let mut kept: Vec<StateNode> = Vec::new();
    let mut i: usize = 0;
    while i < v.len()
        invariant
            i <= v@.len(),
            kept@ == live_states(v@.take(i as int)),
        decreases v@.len() - i,
    {
        assert(v@.take(i + 1).drop_last() =~= v@.take(i as int));
        let n = v[i];
        if !n.dead {
            kept.push(n);
        }
        i += 1;
    }
    assert(v@.take(v@.len() as int) =~= v@);
    kept
}

fn retain_live_memos<P>(v: Vec<Meoizee<P>>) -> (r: Vec<Meoizee<P>>)
    ensures
        r@ == live_memos(v@),
{
    let mut kept: Vec<Meoizee<P>> = Vec::new();
    let ghost orig = v@;
    let mut i: usize = 0;
    for x in it: v
        invariant
            it.seq() == orig,
            kept@ == live_memos(orig.take(it.index() as int)),
    {
        assert(orig.take(it.index() + 1).drop_last() =~= orig.take(it.index() as int));
        if !x.dead {
            kept.push(x);
        }
    }
    assert(orig.take(orig.len() as int) =~= orig);
    kept
}


fn retain_live_elements<P>(v: Vec<Element<P>>) -> (r: Vec<Element<P>>)
    ensures
        r@ == live_elements(v@),
{
    let mut kept: Vec<Element<P>> = Vec::new();
    let ghost orig = v@;
    for x in it: v
        invariant
            it.seq() == orig,
            kept@ == live_elements(orig.take(it.index() as int)),
    {
        assert(orig.take(it.index() + 1).drop_last() =~= orig.take(it.index() as int));
        if !x.dead {
            kept.push(x);
        }
    }
    assert(orig.take(orig.len() as int) =~= orig);
    kept
}

fn has_dead_element<P>(v: &Vec<Element<P>>) -> (b: bool)
    ensures
        b == any_dead(v@, v@.len() as int),
{
    let mut i: usize = 0;
    while i < v.len()
        invariant
            i <= v@.len(),
            forall|j: int| 0 <= j < i ==> !(#[trigger] v@[j]).dead,
        decreases v@.len() - i,
    {
        if v[i].dead {
            return true;
        }
        i += 1;
    }
    false
}

/// Whether `new` is `old` after the visit of the memoized component at
/// `key` with `params` (`memoize_component`): the remembered parameters
/// and the cursor as `memo_visit` gives them, the update flag set exactly
/// when the parameters changed, and everything else as it was.
pub open spec fn memo_visited<P: PartialEq>(old: Ui<P>, new: Ui<P>, key: Key, params: P) -> bool {
    let (m, c, ch) = memo_visit(old.tree.memoizees@, old.memoizee_index as int, key, params);
    &&& new.wf()
    &&& new.tree.memoizees@ == m
    &&& new.memoizee_index == c
    &&& new.need_update == ch
    &&& new.tree.states@ == old.tree.states@
    &&& new.tree.renders@ == old.tree.renders@
    &&& new.state_index == old.state_index
    &&& new.render_index == old.render_index
    &&& new.next_id == old.next_id
}

/// The cursor over one level of the tree during a UI pass.
pub struct Ui<P> {
    pub tree: Children<P>,
    pub state_index: usize,
    pub render_index: usize,
    pub memoizee_index: usize,
    pub need_update: bool,
    /// The identity that the next new state cell or element receives.
    pub next_id: u64,
}

impl<P> Ui<P> {
    /// The cursors stand within their lists.
    pub open spec fn wf(&self) -> bool {
        &&& self.state_index <= self.tree.states@.len()
        &&& self.render_index <= self.tree.renders@.len()
        &&& self.memoizee_index <= self.tree.memoizees@.len()
    }

    /// A cursor at the start of `tree`.
    pub fn new(tree: Children<P>, need_update: bool, next_id: u64) -> (ui: Ui<P>)
        ensures
            ui.wf(),
            ui.tree == tree,
            ui.state_index == 0,
            ui.render_index == 0,
            ui.memoizee_index == 0,
            ui.need_update == need_update,
            ui.next_id == next_id,
    {
        Ui { tree, state_index: 0, render_index: 0, memoizee_index: 0, need_update, next_id }
    }


    /// The position of the first remembered parameters at or after the cursor whose key is `key`.
    fn find_memoizee(&self, key: Key) -> (r: Option<usize>)
        requires
            self.wf(),
        ensures
            match r {
                Some(i) => first_from(memo_keys(self.tree.memoizees@), self.memoizee_index as int, key)
                    == Some(i as int),
                None => first_from(
                    memo_keys(self.tree.memoizees@),
                    self.memoizee_index as int,
                    key,
                ) is None,
            },
    {
        let mut ix = self.memoizee_index;
        while ix < self.tree.memoizees.len()
            invariant
                self.wf(),
                self.memoizee_index <= ix <= self.tree.memoizees@.len(),
                first_from(memo_keys(self.tree.memoizees@), self.memoizee_index as int, key)
                    == first_from(memo_keys(self.tree.memoizees@), ix as int, key),
            decreases self.tree.memoizees@.len() - ix,
        {
            if self.tree.memoizees[ix].key == key {
                return Some(ix);
            }
            ix += 1;
        }
        None
    }

    /// Visits the memoized component at `key` with `params`: the parameters
    /// are remembered (inserted at the cursor when the key does not follow
    /// it), the entries skipped over are marked dead, and the component needs
    /// an update exactly when its parameters are new or differ from the
    /// remembered ones. Returns whether they did.
    pub fn memoize_component(&mut self, key: Key, params: P) -> (changed: bool)
        where P: PartialEq,
        requires
            old(self).wf(),
            P::obeys_eq_spec(),
        ensures
            final(self).wf(),
            ({
                let (m, c, ch) = memo_visit(
                    old(self).tree.memoizees@,
                    old(self).memoizee_index as int,
                    key,
                    params,
                );
                &&& final(self).tree.memoizees@ == m
                &&& final(self).memoizee_index == c
                &&& changed == ch
            }),
            final(self).need_update == changed,
            final(self).tree.states@ == old(self).tree.states@,
            final(self).tree.renders@ == old(self).tree.renders@,
            final(self).state_index == old(self).state_index,
            final(self).render_index == old(self).render_index,
            final(self).next_id == old(self).next_id,
    {
        proof {
            lemma_first_from_bounds(
                memo_keys(self.tree.memoizees@),
                self.memoizee_index as int,
                key,
            );
        }
        let idx = self.find_memoizee(key);
        let ghost start = self.memoizee_index as int;
        let ghost before = self.tree.memoizees@;
        assert(memo_keys(before).len() == before.len());
        let (index, changed) = match idx {
            None => {
                self.tree.memoizees.insert(
                    self.memoizee_index,
                    Meoizee { key, val: params, dead: false },
                );
                (self.memoizee_index, true)
            },
            Some(index) => {
                assert(first_from(memo_keys(before), start, key) == Some(index as int));
                let same = self.tree.memoizees[index].val == params;
                if !same {
                    self.tree.memoizees[index].val = params;
                }
                (index, !same)
            },
        };
        let ghost mid = self.tree.memoizees@;
        assert(index < self.tree.memoizees@.len());
        assert(start <= index);
        let mut j = self.memoizee_index;
        while j < index
            invariant
                start <= j <= index < self.tree.memoizees@.len(),
                self.tree.memoizees@.len() == mid.len(),
                self.memoizee_index == start,
                self.tree.renders@ == old(self).tree.renders@,
                self.tree.states@ == old(self).tree.states@,
                self.render_index == old(self).render_index,
                self.state_index == old(self).state_index,
                self.next_id == old(self).next_id,
                forall|l: int|
                    0 <= l < mid.len() ==> #[trigger] self.tree.memoizees@[l] == (if start <= l
                        < j {
                        Meoizee { dead: true, ..mid[l] }
                    } else {
                        mid[l]
                    }),
            decreases index - j,
        {
            self.tree.memoizees[j].dead = true;
            j += 1;
        }
        let _n = self.tree.memoizees.len();
        self.memoizee_index = index + 1;
        self.need_update = changed;
        proof {
            if idx is Some {
                let marked = memos_marked_dead(before, start, index as int);
                if changed {
                    assert(self.tree.memoizees@ =~= marked.update(
                        index as int,
                        Meoizee { val: params, ..marked[index as int] },
                    ));
                } else {
                    assert(self.tree.memoizees@ =~= marked);
                }
            } else {
                assert(self.tree.memoizees@ =~= mid);
            }
        }
        changed
    }

    /// Runs the memoized component `component` at `key` with `params`: the
    /// visit of `memoize_component` remembers a copy of the parameters and
    /// decides whether the component's nodes need an update, then the
    /// component runs once on the UI and the parameters, and afterwards every
    /// node is updated again.
    pub fn run_memoized<F: FnOnce(Ui<P>, P) -> Ui<P>>(self, key: Key, component: F, params: P) -> (r:
        Ui<P>)
        where P: PartialEq + Clone,
        requires
            self.wf(),
            P::obeys_eq_spec(),
            forall|u: Ui<P>, p: P| call_requires(component, (u, p)),
        ensures
            exists|stored: P, mid: Ui<P>, out: Ui<P>|
                {
                    &&& cloned(params, stored)
                    &&& memo_visited(self, mid, key, stored)
                    &&& call_ensures(component, (mid, params), out)
                    &&& r == (Ui { need_update: true, ..out })
                },
    {
        let mut ui = self;
        let stored = params.clone();
        ui.memoize_component(key, stored);
        let ghost mid = ui;
        let out = component(ui, params);
        let r = Ui { need_update: true, ..out };
        assert(memo_visited(self, mid, key, stored));
        r
    }

    /// Marks the end of a memoized component: nodes visited afterwards are
    /// updated again.
    pub fn finish_memoized(&mut self)
        ensures
            final(self).need_update,
            final(self).tree == old(self).tree,
            final(self).state_index == old(self).state_index,
            final(self).render_index == old(self).render_index,
            final(self).memoizee_index == old(self).memoizee_index,
            final(self).next_id == old(self).next_id,
    {
        self.need_update = true;
    }


    /// Whether the element at `index` is to be updated in this pass: when it
    /// asked for an update, when there is no such element, or when the whole
    /// level is being updated.
    pub fn element_needs_update(&self, index: usize) -> (b: bool)
        ensures
            b == (if index < self.tree.renders@.len() {
                self.tree.renders@[index as int].state.request_update
            } else {
                true
            } || self.need_update),
    {
        let need_update = match self.tree.get(index) {
            Some(e) => e.state.request_update,
            None => true,
        };
        need_update || self.need_update
    }

    /// The position of the first element at or after `from` whose keys are
    /// `(key, local_key)`.
    fn find_render_object(&self, from: usize, key: Key, local_key: &LocalKey) -> (r: Option<usize>)
        requires
            from <= self.tree.renders@.len(),
        ensures
            match r {
                Some(i) => first_from(
                    view_keys(element_views(self.tree.renders@)),
                    from as int,
                    (key, local_key@),
                ) == Some(i as int),
                None => first_from(
                    view_keys(element_views(self.tree.renders@)),
                    from as int,
                    (key, local_key@),
                ) is None,
            },
    {
        let ghost keys = view_keys(element_views(self.tree.renders@));
        let mut ix = from;
        while ix < self.tree.renders.len()
            invariant
                from <= ix <= self.tree.renders@.len(),
                keys == view_keys(element_views(self.tree.renders@)),
                first_from(keys, from as int, (key, local_key@)) == first_from(
                    keys,
                    ix as int,
                    (key, local_key@),
                ),
            decreases self.tree.renders@.len() - ix,
        {
            assert(keys[ix as int] == (self.tree.renders@[ix as int].key, self.tree.renders@[ix as int].local_key@));
            if self.tree.renders[ix].key == key && self.tree.renders[ix].local_key == *local_key {
                return Some(ix);
            }
            ix += 1;
        }
        None
    }

    /// Visits the render element with keys `(key, local_key)`.
    ///
    /// With `Insert(at)` a new element is created at `at`; with `Update(at)`
    /// the element is searched from `at`; with `Auto` it is searched from the
    /// cursor and created there when it is not found. Elements skipped over
    /// are marked dead and the cursor moves past the element. When the
    /// element is to be updated (see `element_needs_update`) its request for
    /// an update is cleared; the caller then updates the element's object and
    /// builds its content.
    #[verifier::spinoff_prover]
    #[verifier::rlimit(90)]
    pub fn render_element(&mut self, key: Key, local_key: LocalKey, action: RenderAction) -> (r:
        RenderVisit)
        requires
            old(self).wf(),
            old(self).next_id < u64::MAX,
            match action {
                RenderAction::Insert(at) => at <= old(self).tree.renders@.len(),
                RenderAction::Update(at) => at <= old(self).tree.renders@.len() && first_from(
                    view_keys(element_views(old(self).tree.renders@)),
                    at as int,
                    (key, local_key@),
                ) is Some,
                RenderAction::Auto => true,
            },
        ensures
            final(self).wf(),
            ({
                let (v, c, n, out) = render_visit(
                    element_views(old(self).tree.renders@),
                    old(self).render_index as int,
                    old(self).next_id,
                    old(self).need_update,
                    key,
                    local_key@,
                    action,
                );
                &&& element_views(final(self).tree.renders@) == v
                &&& final(self).render_index == c
                &&& final(self).next_id == n
                &&& r == out
            }),
            r.inserted ==> {
                let e = final(self).tree.renders@[r.index as int];
                &&& e.children.states@.len() == 0
                &&& e.children.renders@.len() == 0
                &&& e.children.memoizees@.len() == 0
            },
            forall|j: int|
                0 <= j < old(self).tree.renders@.len() ==> (#[trigger] old(
                    self,
                ).tree.renders@[j]).children == final(self).tree.renders@[if r.inserted
                    && j >= r.index {
                    j + 1
                } else {
                    j
                }].children,
            final(self).tree.states@ == old(self).tree.states@,
            final(self).tree.memoizees@ == old(self).tree.memoizees@,
            final(self).state_index == old(self).state_index,
            final(self).memoizee_index == old(self).memoizee_index,
            final(self).need_update == old(self).need_update,
            old(self).need_update ==> r.update,
            r.inserted ==> r.update,
            !r.inserted ==> r.index < old(self).tree.renders@.len() && r.update == (old(
                self,
            ).tree.renders@[r.index as int].state.request_update || old(self).need_update),
            r.index < final(self).tree.renders@.len(),
            r.update ==> !final(self).tree.renders@[r.index as int].state.request_update,
    {
        let len0 = self.tree.renders.len();
        proof {
            assert(element_views(old(self).tree.renders@).len() == len0);
            lemma_visit_updates(
                element_views(old(self).tree.renders@),
                old(self).render_index as int,
                old(self).next_id,
                old(self).need_update,
                key,
                local_key@,
                action,
            );
        }
        let ghost old_views = element_views(self.tree.renders@);
        let ghost old_renders = self.tree.renders@;
        match action {
            RenderAction::Insert(at) => {
                self.render_index = at;
            },
            RenderAction::Update(at) => {
                self.render_index = at;
            },
            RenderAction::Auto => {},
        }
        let start = self.render_index;
        proof {
            lemma_first_from_bounds(view_keys(old_views), start as int, (key, local_key@));
        }
        let found = match action {
            RenderAction::Insert(_) => None,
            _ => self.find_render_object(start, key, &local_key),
        };
        let ghost r1;
        let (index, inserted) = match found {
            None => {
                let el = Element::new(key, local_key.clone(), ElementId(self.next_id));
                self.next_id = self.next_id + 1;
                self.tree.renders.insert(start, el);
                proof {
                    r1 = old_views.insert(
                        start as int,
                        (key, local_key@, false, ElementState::new_spec(ElementId(old(self).next_id))),
                    );
                    assert(element_views(self.tree.renders@) =~= r1);
                }
                if self.element_needs_update(start) {
                    self.tree.renders[start].state.mark_needs_layout();
                }
                assert(element_views(self.tree.renders@) =~= r1);
                (start, true)
            },
            Some(i) => {
                proof {
                    r1 = old_views;
                }
                (i, false)
            },
        };
        assert(index < self.tree.renders@.len());
        assert(element_views(self.tree.renders@) == r1);
        let ghost mid = self.tree.renders@;
        let mut j = start;
        while j < index
            invariant
                start <= j <= index < self.tree.renders@.len(),
                self.tree.renders@.len() == mid.len(),
                self.render_index == start,
                self.tree.states@ == old(self).tree.states@,
                self.tree.memoizees@ == old(self).tree.memoizees@,
                self.state_index == old(self).state_index,
                self.memoizee_index == old(self).memoizee_index,
                self.need_update == old(self).need_update,
                self.next_id == (if inserted { old(self).next_id + 1 } else { old(self).next_id as int }),
                forall|l: int|
                    0 <= l < mid.len() ==> #[trigger] self.tree.renders@[l] == (if start <= l < j {
                        Element { dead: true, ..mid[l] }
                    } else {
                        mid[l]
                    }),
            decreases index - j,
        {
            self.tree.renders[j].dead = true;
            j += 1;
        }
        let _n = self.tree.renders.len();
        self.render_index = index + 1;
        let ghost r2 = views_marked_dead(r1, start as int, index as int);
        assert(element_views(self.tree.renders@) =~= r2);
        let update = self.element_needs_update(index);
        if update {
            self.tree.renders[index].local_key = local_key;
            self.tree.renders[index].state.request_update = false;
        }
        proof {
            if update {
                assert(element_views(self.tree.renders@) =~= r2.update(
                    index as int,
                    (r2[index as int].0, local_key@, r2[index as int].2, ElementState { request_update: false, ..r2[index as int].3 }),
                ));
            } else {
                assert(element_views(self.tree.renders@) =~= r2);
            }
        }
        RenderVisit { index, inserted, update }
    }


    /// Ends the pass over this level: drops the elements, states and
    /// parameters after the cursors and those marked dead. Returns whether
    /// the list of elements changed, in which case the parent needs a layout.
    pub fn cleanup_tree(&mut self) -> (request_layout: bool)
        requires
            old(self).wf(),
        ensures
            final(self).tree.renders@ == live_elements(
                old(self).tree.renders@.take(old(self).render_index as int),
            ),
            final(self).tree.states@ == live_states(
                old(self).tree.states@.take(old(self).state_index as int),
            ),
            final(self).tree.memoizees@ == live_memos(
                old(self).tree.memoizees@.take(old(self).memoizee_index as int),
            ),
            request_layout == (old(self).tree.renders@.len() > old(self).render_index || any_dead(
                old(self).tree.renders@,
                old(self).render_index as int,
            )),
            final(self).state_index == old(self).state_index,
            final(self).render_index == old(self).render_index,
            final(self).memoizee_index == old(self).memoizee_index,
            final(self).need_update == old(self).need_update,
            final(self).next_id == old(self).next_id,
    {
        let mut request_layout = false;
        if self.tree.renders.len() > self.render_index {
            self.tree.renders.truncate(self.render_index);
            request_layout = true;
        }
        assert(self.tree.renders@ =~= old(self).tree.renders@.take(self.render_index as int));
        if has_dead_element(&self.tree.renders) {
            let mut renders = Vec::new();
            std::mem::swap(&mut renders, &mut self.tree.renders);
            self.tree.renders = retain_live_elements(renders);
            request_layout = true;
        } else {
            proof {
                lemma_live_elements_all_live(self.tree.renders@);
            }
        }
        self.tree.states.truncate(self.state_index);
        let mut states = Vec::new();
        std::mem::swap(&mut states, &mut self.tree.states);
        self.tree.states = retain_live_states(states);
        self.tree.memoizees.truncate(self.memoizee_index);
        let mut memos = Vec::new();
        std::mem::swap(&mut memos, &mut self.tree.memoizees);
        self.tree.memoizees = retain_live_memos(memos);
        request_layout
    }

    /// Gives back the children that this pass has reconciled.
    pub fn into_tree(self) -> (c: Children<P>)
        ensures
            c == self.tree,
    {
        self.tree
    }

    /// The position of the first state at or after the cursor whose key is `key`.
    fn find_state_node(&self, key: Key) -> (r: Option<usize>)
        requires
            self.wf(),
        ensures
            match r {
                Some(i) => first_from(state_keys(self.tree.states@), self.state_index as int, key)
                    == Some(i as int),
                None => first_from(
                    state_keys(self.tree.states@),
                    self.state_index as int,
                    key,
                ) is None,
            },
    {
        let mut ix = self.state_index;
        while ix < self.tree.states.len()
            invariant
                self.wf(),
                self.state_index <= ix <= self.tree.states@.len(),
                first_from(state_keys(self.tree.states@), self.state_index as int, key)
                    == first_from(state_keys(self.tree.states@), ix as int, key),
            decreases self.tree.states@.len() - ix,
        {
            if self.tree.states[ix].key == key {
                return Some(ix);
            }
            ix += 1;
        }
        None
    }

    /// Returns the state cell remembered at `key`, creating a new one at the
    /// cursor if none follows it; the states skipped over are marked dead.
    /// The boolean is true when the cell is new, so that its initial value is
    /// still to be stored.
    pub fn state_node(&mut self, key: Key) -> (r: (StateHandle, bool))
        requires
            old(self).wf(),
            old(self).next_id < u64::MAX,
        ensures
            final(self).wf(),
            ({
                let (s, c, n, h, b) = state_visit(
                    old(self).tree.states@,
                    old(self).state_index as int,
                    old(self).next_id,
                    key,
                );
                &&& final(self).tree.states@ == s
                &&& final(self).state_index == c
                &&& final(self).next_id == n
                &&& r == (h, b)
            }),
            final(self).tree.renders@ == old(self).tree.renders@,
            final(self).tree.memoizees@ == old(self).tree.memoizees@,
            final(self).render_index == old(self).render_index,
            final(self).memoizee_index == old(self).memoizee_index,
            final(self).need_update == old(self).need_update,
    {
        proof {
            lemma_first_from_bounds(
                state_keys(self.tree.states@),
                self.state_index as int,
                key,
            );
        }
        let idx = self.find_state_node(key);
        let ghost start = self.state_index as int;
        let ghost before = self.tree.states@;
        let (index, is_new) = match idx {
            None => {
                let h = StateHandle::new(self.next_id);
                self.next_id = self.next_id + 1;
                self.tree.states.insert(self.state_index, StateNode { key, state: h, dead: false });
                (self.state_index, true)
            },
            Some(index) => {
                assert(first_from(state_keys(before), start, key) == Some(index as int));
                (index, false)
            },
        };
        let ghost mid = self.tree.states@;
        assert(state_keys(before).len() == before.len());
        assert(index < self.tree.states@.len());
        assert(start <= index);
        let mut j = self.state_index;
        while j < index
            invariant
                start <= j <= index < self.tree.states@.len(),
                self.tree.states@.len() == mid.len(),
                self.state_index == start,
                self.tree.renders@ == old(self).tree.renders@,
                self.tree.memoizees@ == old(self).tree.memoizees@,
                self.render_index == old(self).render_index,
                self.memoizee_index == old(self).memoizee_index,
                self.need_update == old(self).need_update,
                self.next_id == (if is_new { old(self).next_id + 1 } else { old(self).next_id as int }),
                forall|l: int|
                    0 <= l < mid.len() ==> #[trigger] self.tree.states@[l] == (if start <= l < j {
                        StateNode { dead: true, ..mid[l] }
                    } else {
                        mid[l]
                    }),
            decreases index - j,
        {
            let mut n = self.tree.states[j];
            n.dead = true;
            self.tree.states.set(j, n);
            j += 1;
        }
        let _n = self.tree.states.len();
        self.state_index = index + 1;
        proof {
            if !is_new {
                assert(self.tree.states@ =~= states_marked_dead(before, start, index as int));
            } else {
                assert(self.tree.states@ =~= mid);
            }
        }
        (self.tree.states[index].state, is_new)
    }
}

/// The outcome of visiting the render elements with the keys `keys`, in
/// order, each with `RenderAction::Auto`: the final element views, cursor and
/// identity allocator, and the outcome of each visit.
pub open spec fn run_renders(
    views: Seq<(Key, Seq<char>, bool, ElementState)>,
    cursor: int,
    next_id: u64,
    need_update: bool,
    keys: Seq<(Key, Seq<char>)>,
) -> (Seq<(Key, Seq<char>, bool, ElementState)>, int, u64, Seq<RenderVisit>)
    decreases keys.len(),
{
    if keys.len() == 0 {
        (views, cursor, next_id, Seq::empty())
    } else {
        let (v1, c1, n1, out) = run_renders(views, cursor, next_id, need_update, keys.drop_last());
        let (v2, c2, n2, r) = render_visit(
            v1,
            c1,
            n1,
            need_update,
            keys.last().0,
            keys.last().1,
            RenderAction::Auto,
        );
        (v2, c2, n2, out.push(r))
    }
}

/// A pass that visits the elements by their own keys, in their order, finds
/// every one of them: the element at each position is reused, nothing is
/// created, the keys of the elements stay, and the identity allocator is
/// left as it was.
pub proof fn lemma_same_pass_reuses_elements(
    views: Seq<(Key, Seq<char>, bool, ElementState)>,
    next_id: u64,
    need_update: bool,
)
    requires
        views.len() <= usize::MAX,
    ensures
        ({
            let (v, c, n, out) = run_renders(views, 0, next_id, need_update, view_keys(views));
            &&& view_keys(v) == view_keys(views)
            &&& c == views.len()
            &&& n == next_id
            &&& out.len() == views.len()
            &&& forall|i: int|
                0 <= i < views.len() ==> (#[trigger] out[i]).index == i && !out[i].inserted
        }),
{
    lemma_same_render_prefix(views, next_id, need_update, views.len() as int);
    assert(view_keys(views).take(views.len() as int) =~= view_keys(views));
}

proof fn lemma_same_render_prefix(
    views: Seq<(Key, Seq<char>, bool, ElementState)>,
    next_id: u64,
    need_update: bool,
    k: int,
)
    requires
        0 <= k <= views.len() <= usize::MAX,
    ensures
        ({
            let (v, c, n, out) = run_renders(views, 0, next_id, need_update, view_keys(views).take(k));
            &&& view_keys(v) == view_keys(views)
            &&& v.len() == views.len()
            &&& c == k
            &&& n == next_id
            &&& out.len() == k
            &&& forall|i: int| 0 <= i < k ==> (#[trigger] out[i]).index == i && !out[i].inserted
        }),
    decreases k,
{
    if k > 0 {
        let keys = view_keys(views).take(k);
        assert(keys.drop_last() =~= view_keys(views).take(k - 1));
        lemma_same_render_prefix(views, next_id, need_update, k - 1);
        let (v1, c1, n1, out1) = run_renders(views, 0, next_id, need_update, keys.drop_last());
        assert(keys.last() == view_keys(views)[k - 1]);
        assert(view_keys(v1)[k - 1] == keys.last());
        assert(first_from(view_keys(v1), k - 1, keys.last()) == Some(k - 1));
        assert(views_marked_dead(v1, k - 1, k - 1) =~= v1);
        let (v2, c2, n2, r) = render_visit(v1, c1, n1, need_update, keys.last().0, keys.last().1, RenderAction::Auto);
        assert(view_keys(v2) =~= view_keys(v1)) by {
            assert forall|j: int| 0 <= j < v2.len() implies #[trigger] view_keys(v2)[j] == view_keys(v1)[j] by {
                if j == k - 1 {
                    assert(view_keys(v1)[j] == (v1[j].0, v1[j].1));
                }
            }
        }
    }
}

/// Where the keys at `[i, j)` differ from `k` and the key at `j` is `k`, the
/// search from `i` finds `j`.
proof fn lemma_first_from_at<K>(keys: Seq<K>, i: int, j: int, k: K)
    requires
        0 <= i <= j < keys.len(),
        keys[j] == k,
        forall|l: int| i <= l < j ==> keys[l] != k,
    ensures
        first_from(keys, i, k) == Some(j),
    decreases j - i,
{
    if i < j {
        lemma_first_from_at(keys, i + 1, j, k);
    }
}

/// Visiting a memoized component again with the same parameters, from the
/// same cursor, reports no change: a component whose parameters did not
/// change is not updated.
pub proof fn lemma_memo_same_params_unchanged<P: PartialEq>(
    memos: Seq<Meoizee<P>>,
    cursor: int,
    key: Key,
    params: P,
)
    requires
        0 <= cursor <= memos.len(),
        params.eq_spec(&params),
    ensures
        ({
            let (m, c, changed) = memo_visit(memos, cursor, key, params);
            !memo_visit(m, cursor, key, params).2
        }),
{
    let (m, c, changed) = memo_visit(memos, cursor, key, params);
    lemma_first_from_bounds(memo_keys(memos), cursor, key);
    match first_from(memo_keys(memos), cursor, key) {
        Some(i) => {
            assert(memo_keys(memos)[i] == memos[i].key);
            assert forall|l: int| cursor <= l < i implies #[trigger] memo_keys(m)[l] != key by {
                assert(memo_keys(memos)[l] == memos[l].key);
            }
            lemma_first_from_at(memo_keys(m), cursor, i, key);
        },
        None => {
            lemma_first_from_at(memo_keys(m), cursor, cursor, key);
        },
    }
}

impl<P> Ui<P> {
    /// Takes the children of the element at `index` out of the tree, for a
    /// pass over them; an empty list stands in their place meanwhile.
    pub fn take_children(&mut self, index: usize) -> (c: Children<P>)
        requires
            old(self).wf(),
            index < old(self).tree.renders@.len(),
        ensures
            final(self).wf(),
            c == old(self).tree.renders@[index as int].children,
            final(self).tree.renders@.len() == old(self).tree.renders@.len(),
            final(self).tree.renders@[index as int].children.states@.len() == 0,
            final(self).tree.renders@[index as int].children.renders@.len() == 0,
            final(self).tree.renders@[index as int].children.memoizees@.len() == 0,
            final(self).tree.renders@[index as int].key == old(self).tree.renders@[index as int].key,
            final(self).tree.renders@[index as int].local_key == old(self).tree.renders@[index as int].local_key,
            final(self).tree.renders@[index as int].dead == old(self).tree.renders@[index as int].dead,
            final(self).tree.renders@[index as int].state == old(self).tree.renders@[index as int].state,
            forall|j: int|
                0 <= j < old(self).tree.renders@.len() && j != index ==> #[trigger] final(self).tree.renders@[j]
                    == old(self).tree.renders@[j],
            final(self).tree.states == old(self).tree.states,
            final(self).tree.memoizees == old(self).tree.memoizees,
            final(self).state_index == old(self).state_index,
            final(self).render_index == old(self).render_index,
            final(self).memoizee_index == old(self).memoizee_index,
            final(self).need_update == old(self).need_update,
            final(self).next_id == old(self).next_id,
    {
        let mut c = Children::new();
        std::mem::swap(&mut c, &mut self.tree.renders[index].children);
        c
    }

    /// Completes the visit of the element at `index` once its object is
    /// updated: a change of its parent data asks for a layout; when its
    /// content was built, the children of that pass become its children, a
    /// change of their list (`children_changed`, what the cleanup of that
    /// pass returned) asks for a layout, and their states are merged up.
    pub fn complete_element(
        &mut self,
        index: usize,
        parent_data_changed: bool,
        content: Option<(Children<P>, bool)>,
    )
        requires
            old(self).wf(),
            index < old(self).tree.renders@.len(),
        ensures
            final(self).wf(),
            final(self).tree.renders@.len() == old(self).tree.renders@.len(),
            ({
                let e = old(self).tree.renders@[index as int];
                let after_data = if parent_data_changed {
                    ElementState { needs_layout: e.state.needs_layout || !e.state.doing_this_layout_with_callback, ..e.state }
                } else {
                    e.state
                };
                let f = final(self).tree.renders@[index as int];
                &&& f.key == e.key
                &&& f.local_key == e.local_key
                &&& f.dead == e.dead
                &&& match content {
                    Some((children, changed)) => {
                        let after_children = if changed {
                            ElementState { needs_layout: after_data.needs_layout || !after_data.doing_this_layout_with_callback, ..after_data }
                        } else {
                            after_data
                        };
                        &&& f.children == children
                        &&& f.state == crate::tree::merged_all(after_children, children.renders@)
                    },
                    None => f.children == e.children && f.state == after_data,
                }
            }),
            forall|j: int|
                0 <= j < old(self).tree.renders@.len() && j != index ==> #[trigger] final(self).tree.renders@[j]
                    == old(self).tree.renders@[j],
            final(self).tree.states == old(self).tree.states,
            final(self).tree.memoizees == old(self).tree.memoizees,
            final(self).state_index == old(self).state_index,
            final(self).render_index == old(self).render_index,
            final(self).memoizee_index == old(self).memoizee_index,
            final(self).need_update == old(self).need_update,
            final(self).next_id == old(self).next_id,
    {
        if parent_data_changed {
            self.tree.renders[index].request_layout();
        }
        match content {
            Some((children, changed)) => {
                self.tree.renders[index].children = children;
                if changed {
                    self.tree.renders[index].request_layout();
                }
                self.tree.renders[index].merge_child_states_up();
            },
            None => {},
        }
    }
}

} // verus!

verus! {

/// The outcome of visiting the states at `keys`, in order, starting from the
/// given states, cursor and identity allocator: the final states, cursor and
/// allocator, and the handle and novelty returned by each visit.
pub open spec fn run_states(states: Seq<StateNode>, cursor: int, next_id: u64, keys: Seq<Key>) -> (
    Seq<StateNode>,
    int,
    u64,
    Seq<(StateHandle, bool)>,
)
    decreases keys.len(),
{
    if keys.len() == 0 {
        (states, cursor, next_id, Seq::empty())
    } else {
        let (s1, c1, n1, out) = run_states(states, cursor, next_id, keys.drop_last());
        let (s2, c2, n2, h, b) = state_visit(s1, c1, n1, keys.last());
        (s2, c2, n2, out.push((h, b)))
    }
}

/// Whether every node of `s` is live.
pub open spec fn all_live(s: Seq<StateNode>) -> bool {
    forall|j: int| 0 <= j < s.len() ==> !(#[trigger] s[j]).dead
}

proof fn lemma_live_states_append(a: Seq<StateNode>, b: Seq<StateNode>)
    ensures
        live_states(a + b) == live_states(a) + live_states(b),
    decreases b.len(),
{
    if b.len() == 0 {
        assert(a + b =~= a);
        assert(live_states(b) =~= Seq::<StateNode>::empty());
        assert(live_states(a) + live_states(b) =~= live_states(a));
    } else {
        assert((a + b).drop_last() =~= a + b.drop_last());
        assert((a + b).last() == b.last());
        lemma_live_states_append(a, b.drop_last());
        if b.last().dead {
        } else {
            assert(live_states(a + b) =~= live_states(a) + live_states(b));
        }
    }
}

proof fn lemma_live_states_all_dead(s: Seq<StateNode>)
    requires
        forall|j: int| 0 <= j < s.len() ==> (#[trigger] s[j]).dead,
    ensures
        live_states(s) == Seq::<StateNode>::empty(),
    decreases s.len(),
{
    if s.len() > 0 {
        assert(s[s.len() - 1].dead);
        lemma_live_states_all_dead(s.drop_last());
    }
}

proof fn lemma_live_states_single(x: StateNode)
    ensures
        live_states(seq![x]) == (if x.dead {
            Seq::<StateNode>::empty()
        } else {
            seq![x]
        }),
{
    assert(seq![x].drop_last() =~= Seq::<StateNode>::empty());
    assert(seq![x].last() == x);
    assert(live_states(Seq::<StateNode>::empty()) == Seq::<StateNode>::empty());
    assert(Seq::<StateNode>::empty().push(x) =~= seq![x]);
}

/// One visit keeps the pass invariant: the live nodes before the cursor are
/// the nodes visited so far, in order, and every node after it is live.
proof fn lemma_state_visit_step(s: Seq<StateNode>, c: int, n: u64, key: Key)
    requires
        0 <= c <= s.len(),
        forall|j: int| c <= j < s.len() ==> !(#[trigger] s[j]).dead,
    ensures
        ({
            let (s2, c2, n2, h, b) = state_visit(s, c, n, key);
            &&& c < c2 <= s2.len()
            &&& forall|j: int| c2 <= j < s2.len() ==> !(#[trigger] s2[j]).dead
            &&& live_states(s2.take(c2)) == live_states(s.take(c)).push(
                StateNode { key, state: h, dead: false },
            )
        }),
{
    lemma_first_from_bounds(state_keys(s), c, key);
    let (s2, c2, n2, h, b) = state_visit(s, c, n, key);
    match first_from(state_keys(s), c, key) {
        Some(i) => {
            let m = states_marked_dead(s, c, i);
            assert(s2 == m);
            assert(state_keys(s)[i] == s[i].key);
            let dead_part = m.subrange(c, i);
            assert(m.take(i + 1) =~= s.take(c) + dead_part + seq![m[i]]);
            assert forall|j: int| 0 <= j < dead_part.len() implies (#[trigger] dead_part[j]).dead by {
                assert(dead_part[j] == m[c + j]);
            }
            lemma_live_states_all_dead(dead_part);
            lemma_live_states_append(s.take(c) + dead_part, seq![m[i]]);
            lemma_live_states_append(s.take(c), dead_part);
            lemma_live_states_single(m[i]);
            assert(s.take(c) + dead_part + Seq::<StateNode>::empty() =~= s.take(c) + dead_part);
            assert(live_states(s.take(c)) + Seq::<StateNode>::empty() =~= live_states(s.take(c)));
            assert(m[i] == s[i]);
            assert(s[i] == StateNode { key, state: h, dead: false });
            assert(live_states(s.take(c)) + seq![m[i]] =~= live_states(s.take(c)).push(m[i]));
        },
        None => {
            let x = StateNode { key, state: StateHandle { id: n }, dead: false };
            assert(s2 == s.insert(c, x));
            assert(s2.take(c + 1) =~= s.take(c) + seq![x]);
            lemma_live_states_append(s.take(c), seq![x]);
            lemma_live_states_single(x);
            assert(live_states(s.take(c)) + seq![x] =~= live_states(s.take(c)).push(x));
            assert forall|j: int| c + 1 <= j < s2.len() implies !(#[trigger] s2[j]).dead by {
                assert(s2[j] == s[j - 1]);
            }
        },
    }
}

/// After any pass that visits the states at `keys`, in order, over live
/// states, and the cleanup that ends it, the remembered states are exactly
/// one per visit, in visiting order, each with the handle that its visit
/// returned.
pub proof fn lemma_pass_remembers_visits(states: Seq<StateNode>, next_id: u64, keys: Seq<Key>)
    requires
        all_live(states),
    ensures
        ({
            let (s, c, n, out) = run_states(states, 0, next_id, keys);
            let kept = live_states(s.take(c));
            &&& 0 <= c <= s.len()
            &&& out.len() == keys.len()
            &&& kept.len() == keys.len()
            &&& forall|i: int|
                0 <= i < keys.len() ==> (#[trigger] kept[i]) == StateNode {
                    key: keys[i],
                    state: out[i].0,
                    dead: false,
                }
        }),
    decreases keys.len(),
{
    if keys.len() == 0 {
        assert(states.take(0) =~= Seq::<StateNode>::empty());
    } else {
        lemma_pass_remembers_visits(states, next_id, keys.drop_last());
        let (s1, c1, n1, out1) = run_states(states, 0, next_id, keys.drop_last());
        lemma_run_states_tail_live(states, next_id, keys.drop_last());
        lemma_state_visit_step(s1, c1, n1, keys.last());
        let (s, c, n, out) = run_states(states, 0, next_id, keys);
        let kept = live_states(s.take(c));
        let kept1 = live_states(s1.take(c1));
        assert forall|i: int| 0 <= i < keys.len() implies (#[trigger] kept[i]) == StateNode {
            key: keys[i],
            state: out[i].0,
            dead: false,
        } by {
            if i < keys.len() - 1 {
                assert(kept[i] == kept1[i]);
                assert(keys.drop_last()[i] == keys[i]);
                assert(out[i] == out1[i]);
            }
        }
    }
}

proof fn lemma_run_states_tail_live(states: Seq<StateNode>, next_id: u64, keys: Seq<Key>)
    requires
        all_live(states),
    ensures
        ({
            let (s, c, n, out) = run_states(states, 0, next_id, keys);
            &&& 0 <= c <= s.len()
            &&& forall|j: int| c <= j < s.len() ==> !(#[trigger] s[j]).dead
        }),
    decreases keys.len(),
{
    if keys.len() > 0 {
        lemma_run_states_tail_live(states, next_id, keys.drop_last());
        let (s1, c1, n1, out1) = run_states(states, 0, next_id, keys.drop_last());
        lemma_state_visit_step(s1, c1, n1, keys.last());
    }
}

/// A pass that visits the remembered live states by their own keys, in
/// their order, finds every one of them: each visit returns the handle that
/// was remembered, nothing is created, and the states and the identity
/// allocator are left as they were.
pub proof fn lemma_same_pass_reuses_states(states: Seq<StateNode>, next_id: u64)
    requires
        all_live(states),
    ensures
        ({
            let (s, c, n, out) = run_states(states, 0, next_id, state_keys(states));
            &&& s == states
            &&& c == states.len()
            &&& n == next_id
            &&& out.len() == states.len()
            &&& forall|i: int| 0 <= i < states.len() ==> (#[trigger] out[i]) == (states[i].state, false)
        }),
{
    lemma_same_pass_prefix(states, next_id, states.len() as int);
    assert(state_keys(states).take(states.len() as int) =~= state_keys(states));
}

proof fn lemma_same_pass_prefix(states: Seq<StateNode>, next_id: u64, k: int)
    requires
        0 <= k <= states.len(),
    ensures
        ({
            let (s, c, n, out) = run_states(states, 0, next_id, state_keys(states).take(k));
            &&& s == states
            &&& c == k
            &&& n == next_id
            &&& out.len() == k
            &&& forall|i: int| 0 <= i < k ==> (#[trigger] out[i]) == (states[i].state, false)
        }),
    decreases k,
{
    if k > 0 {
        let keys = state_keys(states).take(k);
        assert(keys.drop_last() =~= state_keys(states).take(k - 1));
        lemma_same_pass_prefix(states, next_id, k - 1);
        assert(keys.last() == states[k - 1].key);
        assert(state_keys(states)[k - 1] == states[k - 1].key);
        assert(first_from(state_keys(states), k - 1, keys.last()) == Some(k - 1));
        assert(states_marked_dead(states, k - 1, k - 1) =~= states);
    }
}

} // verus!
