//! The objects of scrolling lists.
use vstd::prelude::*;

use crate::key::Key;

verus! {

/// The render object of an item of a scrolling list; it lays out and paints
/// its only child.
#[derive(Debug, Default, Clone, Copy, PartialEq, Eq, Structural)]
pub struct SliverListItemObject;

/// A sliver that holds one box child.
#[derive(Debug, Default, Clone, Copy, PartialEq, Eq, Structural)]
pub struct SliverToBox;

} // verus!

verus! {

/// The parent data that a scrolling list keeps on each of its items: the
/// item's index in the list, whether it is to be kept alive when it scrolls
/// out of the cache area, and whether it is kept alive now (held aside
/// rather than among the children).
#[derive(Debug, Clone, Copy, PartialEq, Eq, Structural)]
pub struct SliverListParentData {
    pub keep_alive: bool,
    pub kept_alive: bool,
    pub index: usize,
}

/// An item of a scrolling list: its key, its element, and the parent data
/// that the list set on it.
pub struct SliverItem<E> {
    pub key: Key,
    pub element: E,
    pub parent_data: Option<SliverListParentData>,
}

/// The items that a scrolling list keeps alive while they are out of view,
/// by item index.
pub struct KeepAliveBucket<E> {
    pub entries: Vec<(usize, SliverItem<E>)>,
}

/// The items of `entries` by index; a later entry wins.
pub open spec fn bucket_view<E>(entries: Seq<(usize, SliverItem<E>)>) -> Map<usize, SliverItem<E>>
    decreases entries.len(),
{
    if entries.len() == 0 {
        Map::empty()
    } else {
        bucket_view(entries.drop_last()).insert(entries.last().0, entries.last().1)
    }
}

/// The item `it` with its parent data marked as kept alive.
pub open spec fn marked_kept<E>(it: SliverItem<E>) -> SliverItem<E> {
    SliverItem {
        parent_data: Some(SliverListParentData { kept_alive: true, ..it.parent_data->0 }),
        ..it
    }
}

/// The items kept alive after the items `garbage` leave the children, in
/// order: each item to be kept alive is kept under its index, marked as
/// kept alive.
pub open spec fn cache_all<E>(bucket: Map<usize, SliverItem<E>>, garbage: Seq<SliverItem<E>>) -> Map<
    usize,
    SliverItem<E>,
>
    decreases garbage.len(),
{
    if garbage.len() == 0 {
        bucket
    } else {
        let b = cache_all(bucket, garbage.drop_last());
        let it = garbage.last();
        if it.parent_data->0.keep_alive {
            b.insert(it.parent_data->0.index, marked_kept(it))
        } else {
            b
        }
    }
}

/// The items that `collect_garbage` takes out of `children`: the first
/// `leading`, in order, then the last `trailing`, from the last one back.
pub open spec fn garbage_of<E>(children: Seq<SliverItem<E>>, leading: int, trailing: int) -> Seq<
    SliverItem<E>,
> {
    children.take(leading) + children.skip(children.len() - trailing).reverse()
}

impl<E> KeepAliveBucket<E> {
    /// Each index is held once, and each item held is marked as kept alive,
    /// to be kept alive, and under its own index.
    pub open spec fn wf(&self) -> bool {
        &&& forall|i: int, j: int|
            0 <= i < self.entries@.len() && 0 <= j < self.entries@.len() && i != j ==> (#[trigger] self.entries@[i]).0
                != (#[trigger] self.entries@[j]).0
        &&& forall|i: int|
            0 <= i < self.entries@.len() ==> {
                let e = #[trigger] self.entries@[i];
                &&& e.1.parent_data is Some
                &&& e.1.parent_data->0.kept_alive
                &&& e.1.parent_data->0.keep_alive
                &&& e.1.parent_data->0.index == e.0
            }
    }

    /// The items held, by index.
    pub open spec fn view(&self) -> Map<usize, SliverItem<E>> {
        bucket_view(self.entries@)
    }

    /// An empty bucket.
    pub fn new() -> (b: Self)
        ensures
            b.wf(),
            b.view() == Map::<usize, SliverItem<E>>::empty(),
    {
        KeepAliveBucket { entries: Vec::new() }
    }

    fn find(&self, index: usize) -> (r: Option<usize>)
        ensures
            match r {
                Some(j) => j < self.entries@.len() && self.entries@[j as int].0 == index,
                None => forall|j: int| 0 <= j < self.entries@.len() ==> (#[trigger] self.entries@[j]).0 != index,
            },
    {
        let mut j: usize = 0;
        while j < self.entries.len()
            invariant
                j <= self.entries@.len(),
                forall|l: int| 0 <= l < j ==> (#[trigger] self.entries@[l]).0 != index,
            decreases self.entries@.len() - j,
        {
            if self.entries[j].0 == index {
                return Some(j);
            }
            j += 1;
        }
        None
    }

    /// Holds `item` under `index`, in place of any item held there.
    fn put(&mut self, index: usize, item: SliverItem<E>)
        requires
            old(self).wf(),
            item.parent_data == Some(SliverListParentData { keep_alive: true, kept_alive: true, index }),
        ensures
            final(self).wf(),
            final(self).view() == old(self).view().insert(index, item),
    {
        proof {
            lemma_bucket_view_distinct(self.entries@);
        }
        match self.find(index) {
            Some(j) => {
                let ghost before = self.entries@;
                let _ = self.entries.remove(j);
                self.entries.push((index, item));
                proof {
                    lemma_remove_from_view(before, j as int);
                    assert(self.entries@.drop_last() =~= before.remove(j as int));
                    lemma_push_keeps_wf(before.remove(j as int), (index, item));
                }
            },
            None => {
                let ghost before = self.entries@;
                self.entries.push((index, item));
                proof {
                    assert(self.entries@.drop_last() =~= before);
                    lemma_push_keeps_wf(before, (index, item));
                }
            },
        }
    }

    /// Takes out the item held under `index`, if any.
    pub fn take(&mut self, index: usize) -> (r: Option<SliverItem<E>>)
        requires
            old(self).wf(),
        ensures
            final(self).wf(),
            r == (if old(self).view().contains_key(index) {
                Some(old(self).view()[index])
            } else {
                None::<SliverItem<E>>
            }),
            final(self).view() == old(self).view().remove(index),
    {
        proof {
            lemma_bucket_view_distinct(self.entries@);
        }
        match self.find(index) {
            Some(j) => {
                let ghost before = self.entries@;
                let (_, item) = self.entries.remove(j);
                proof {
                    lemma_remove_from_view(before, j as int);
                    lemma_view_at(before, j as int);
                    lemma_remove_keeps_wf(before, j as int);
                }
                Some(item)
            },
            None => {
                proof {
                    lemma_absent_from_view(self.entries@, index);
                    assert(self.view().remove(index) =~= self.view());
                }
                None
            },
        }
    }

    /// Takes an item out of the children or of the bucket, as its parent
    /// data `parent_data` says: an item that is not kept alive is the child
    /// at `child`; one that is kept alive is the item held under its index.
    pub fn remove(
        &mut self,
        children: &mut Vec<SliverItem<E>>,
        child: usize,
        parent_data: &SliverListParentData,
    ) -> (r: Option<SliverItem<E>>)
        requires
            old(self).wf(),
        ensures
            final(self).wf(),
            !parent_data.kept_alive ==> {
                &&& final(self).view() == old(self).view()
                &&& if child < old(children)@.len() {
                    r == Some(old(children)@[child as int]) && final(children)@ == old(children)@.remove(
                        child as int,
                    )
                } else {
                    r is None && final(children)@ == old(children)@
                }
            },
            parent_data.kept_alive ==> {
                &&& final(children)@ == old(children)@
                &&& r == (if old(self).view().contains_key(parent_data.index) {
                    Some(old(self).view()[parent_data.index])
                } else {
                    None::<SliverItem<E>>
                })
                &&& final(self).view() == old(self).view().remove(parent_data.index)
            },
    {
        if !parent_data.kept_alive {
            if child < children.len() {
                return Some(children.remove(child));
            }
            return None;
        }
        self.take(parent_data.index)
    }

    /// Removes the child at `child_index` from the children, and keeps it
    /// aside if its parent data asks for it to be kept alive.
    ///
    /// The child must carry parent data, and a child to be kept alive must
    /// not be kept alive already. The child's parent data is taken from it
    /// first; a child that is marked as kept alive without being one to keep
    /// alive then stays among the children, without parent data, and the
    /// item held under its index leaves the bucket.
    pub fn destroy_or_cache_child(&mut self, children: &mut Vec<SliverItem<E>>, child_index: usize)
        requires
            old(self).wf(),
            child_index < old(children)@.len(),
            old(children)@[child_index as int].parent_data is Some,
            old(children)@[child_index as int].parent_data->0.keep_alive
                ==> !old(children)@[child_index as int].parent_data->0.kept_alive,
        ensures
            final(self).wf(),
            !old(children)@[child_index as int].parent_data->0.kept_alive ==> {
                &&& final(children)@ == old(children)@.remove(child_index as int)
                &&& final(self).view() == cache_all(old(self).view(), seq![old(children)@[child_index as int]])
            },
            old(children)@[child_index as int].parent_data->0.kept_alive ==> {
                &&& final(children)@ == old(children)@.update(
                    child_index as int,
                    SliverItem { parent_data: None, ..old(children)@[child_index as int] },
                )
                &&& final(self).view() == old(self).view().remove(
                    old(children)@[child_index as int].parent_data->0.index,
                )
            },
    {
        let ghost it = children@[child_index as int];
        let pd = match children[child_index].parent_data {
            Some(p) => p,
            None => vstd::pervasive::unreached(),
        };
        children[child_index].parent_data = None;
        assert(seq![it].drop_last() =~= Seq::<SliverItem<E>>::empty());
        assert(cache_all(self.view(), Seq::<SliverItem<E>>::empty()) == self.view());
        if pd.keep_alive {
            let el = self.remove(children, child_index, &pd);
            let mut el = match el {
                Some(e) => e,
                None => vstd::pervasive::unreached(),
            };
            el.parent_data = Some(SliverListParentData { keep_alive: pd.keep_alive, kept_alive: true, index: pd.index });
            let index = pd.index;
            self.put(index, el);
        } else {
            let _ = self.remove(children, child_index, &pd);
        }
    }

    /// Takes the first `leading` and the last `trailing` children out of the
    /// list, keeping aside those to be kept alive, then drops the held items
    /// that are no longer to be kept alive.
    ///
    /// The children taken out must carry parent data and must not be kept
    /// alive already.
    pub fn collect_garbage(&mut self, children: &mut Vec<SliverItem<E>>, leading: usize, trailing: usize)
        requires
            old(self).wf(),
            leading + trailing <= old(children)@.len(),
            forall|i: int|
                (0 <= i < leading || old(children)@.len() - trailing <= i < old(children)@.len()) ==> {
                    &&& (#[trigger] old(children)@[i]).parent_data is Some
                    &&& !old(children)@[i].parent_data->0.kept_alive
                },
        ensures
            final(self).wf(),
            final(children)@ == old(children)@.subrange(leading as int, old(children)@.len() - trailing),
            final(self).view() == cache_all(
                old(self).view(),
                garbage_of(old(children)@, leading as int, trailing as int),
            ),
    {
        let ghost orig = children@;
        let ghost n = orig.len() as int;
        let mut k: usize = 0;
        while k < leading
            invariant
                k <= leading,
                leading + trailing <= n,
                n == orig.len(),
                self.wf(),
                children@ == orig.subrange(k as int, n),
                self.view() == cache_all(old(self).view(), orig.take(k as int)),
                forall|i: int|
                    (0 <= i < leading || n - trailing <= i < n) ==> {
                        &&& (#[trigger] orig[i]).parent_data is Some
                        &&& !orig[i].parent_data->0.kept_alive
                    },
            decreases leading - k,
        {
            assert(children@[0] == orig[k as int]);
            self.destroy_or_cache_child(children, 0);
            proof {
                lemma_cache_all_push(old(self).view(), orig.take(k as int), orig[k as int]);
                assert(orig.take(k + 1) =~= orig.take(k as int).push(orig[k as int]));
                assert(children@ =~= orig.subrange(k + 1, n));
            }
            k += 1;
        }
        let mut t: usize = 0;
        while t < trailing
            invariant
                t <= trailing,
                leading + trailing <= n,
                n == orig.len(),
                self.wf(),
                children@ == orig.subrange(leading as int, n - t),
                self.view() == cache_all(
                    old(self).view(),
                    orig.take(leading as int) + orig.skip(n - t).reverse(),
                ),
                forall|i: int|
                    (0 <= i < leading || n - trailing <= i < n) ==> {
                        &&& (#[trigger] orig[i]).parent_data is Some
                        &&& !orig[i].parent_data->0.kept_alive
                    },
            decreases trailing - t,
        {
            let last = children.len() - 1;
            assert(children@[last as int] == orig[n - t - 1]);
            self.destroy_or_cache_child(children, last);
            proof {
                let g = orig.take(leading as int) + orig.skip(n - t).reverse();
                lemma_cache_all_push(old(self).view(), g, orig[n - t - 1]);
                assert(orig.take(leading as int) + orig.skip(n - t - 1).reverse() =~= g.push(orig[n - t - 1]));
                assert(children@ =~= orig.subrange(leading as int, n - t - 1));
            }
            t += 1;
        }
        proof {
            lemma_kept_entries_wf(self.entries@);
        }
        self.retain_kept();
    }

    /// Drops the held items whose parent data no longer asks to keep them
    /// alive, keeping the others in order. Every held item must carry
    /// parent data.
    fn retain_kept(&mut self)
        requires
            forall|j: int| 0 <= j < old(self).entries@.len() ==> (#[trigger] old(self).entries@[j]).1.parent_data is Some,
        ensures
            final(self).entries@ == kept_entries(old(self).entries@),
    {
        let mut kept: Vec<(usize, SliverItem<E>)> = Vec::new();
        let mut entries: Vec<(usize, SliverItem<E>)> = Vec::new();
        std::mem::swap(&mut entries, &mut self.entries);
        let ghost all = entries@;
        let n = entries.len();
        let mut i: usize = 0;
        while i < n
            invariant
                n == all.len(),
                i <= n,
                entries@ == all.subrange(i as int, n as int),
                kept@ == kept_entries(all.take(i as int)),
                forall|j: int| 0 <= j < all.len() ==> (#[trigger] all[j]).1.parent_data is Some,
            decreases n - i,
        {
            assert(entries@[0] == all[i as int]);
            let e = entries.remove(0);
            let keep = match &e.1.parent_data {
                Some(pd) => pd.keep_alive,
                None => vstd::pervasive::unreached(),
            };
            proof {
                assert(all.take(i + 1).drop_last() =~= all.take(i as int));
                assert(all.take(i + 1).last() == all[i as int]);
            }
            if keep {
                kept.push(e);
            }
            proof {
                assert(entries@ =~= all.subrange(i + 1, n as int));
            }
            i += 1;
        }
        assert(all.take(n as int) =~= all);
        self.entries = kept;
    }

    /// Brings back the item held under `index` among the children, at
    /// position `after` (or the front), unmarked as kept alive; `false` when
    /// no item is held there, and the child is then to be built.
    ///
    /// No other held item may have the same key as the one brought back.
    pub fn obtain_child(
        &mut self,
        children: &mut Vec<SliverItem<E>>,
        index: usize,
        after: Option<usize>,
    ) -> (obtained: bool)
        requires
            old(self).wf(),
            match after {
                Some(a) => a <= old(children)@.len(),
                None => true,
            },
            old(self).view().contains_key(index) ==> forall|j: usize|
                j != index && old(self).view().contains_key(j) ==> old(self).view()[j].key != old(
                    self,
                ).view()[index].key,
        ensures
            final(self).wf(),
            obtained == old(self).view().contains_key(index),
            final(self).view() == old(self).view().remove(index),
            obtained ==> final(children)@ == old(children)@.insert(
                match after {
                    Some(a) => a as int,
                    None => 0,
                },
                SliverItem {
                    parent_data: Some(
                        SliverListParentData { kept_alive: false, ..old(self).view()[index].parent_data->0 },
                    ),
                    ..old(self).view()[index]
                },
            ),
            !obtained ==> final(children)@ == old(children)@,
    {
        proof {
            lemma_wf_view_items(self.entries@);
        }
        match self.take(index) {
            Some(mut child) => {
                let pd = match child.parent_data {
                    Some(p) => p,
                    None => vstd::pervasive::unreached(),
                };
                child.parent_data = Some(SliverListParentData { keep_alive: pd.keep_alive, kept_alive: false, index: pd.index });
                let at = match after {
                    Some(a) => a,
                    None => 0,
                };
                children.insert(at, child);
                true
            },
            None => false,
        }
    }
}

/// The index of the item held by a child, by its parent data.
pub open spec fn child_index_of<E>(it: SliverItem<E>) -> usize {
    it.parent_data->0.index
}

/// The position of the child holding the item `index`; `None` for no index.
///
/// The children are searched in order; each child searched must carry
/// parent data.
pub fn find_child_with_index<E>(children: &Vec<SliverItem<E>>, index: Option<usize>) -> (r: Option<
    usize,
>)
    requires
        index is Some ==> forall|j: int|
            0 <= j < children@.len() && (forall|l: int| 0 <= l < j ==> child_index_of(
                #[trigger] children@[l],
            ) != index->0) ==> (#[trigger] children@[j]).parent_data is Some,
    ensures
        match index {
            None => r is None,
            Some(x) => match r {
                Some(p) => p < children@.len() && children@[p as int].parent_data is Some
                    && child_index_of(children@[p as int]) == x && forall|l: int|
                    0 <= l < p ==> child_index_of(#[trigger] children@[l]) != x,
                None => forall|l: int| 0 <= l < children@.len() ==> child_index_of(#[trigger] children@[l]) != x,
            },
        },
{
    let x = match index {
        Some(x) => x,
        None => {
            return None;
        },
    };
    let mut p: usize = 0;
    while p < children.len()
        invariant
            p <= children@.len(),
            index == Some(x),
            forall|l: int| 0 <= l < p ==> child_index_of(#[trigger] children@[l]) != x,
            forall|j: int|
                0 <= j < children@.len() && (forall|l: int| 0 <= l < j ==> child_index_of(
                    #[trigger] children@[l],
                ) != x) ==> (#[trigger] children@[j]).parent_data is Some,
        decreases children@.len() - p,
    {
        let found = match &children[p].parent_data {
            Some(pd) => pd.index == x,
            None => vstd::pervasive::unreached(),
        };
        if found {
            return Some(p);
        }
        p += 1;
    }
    None
}

/// An item that scrolls out of the cache area and is kept alive comes back
/// unchanged when it is obtained again: caching it and bringing it back
/// gives the same item, with the same parent data.
pub proof fn lemma_keep_alive_round_trip<E>(bucket: Map<usize, SliverItem<E>>, it: SliverItem<E>)
    requires
        it.parent_data is Some,
        it.parent_data->0.keep_alive,
        !it.parent_data->0.kept_alive,
    ensures
        ({
            let cached = cache_all(bucket, seq![it]);
            let k = it.parent_data->0.index;
            &&& cached.contains_key(k)
            &&& (SliverItem {
                parent_data: Some(SliverListParentData { kept_alive: false, ..cached[k].parent_data->0 }),
                ..cached[k]
            }) == it
        }),
{
    assert(seq![it].drop_last() =~= Seq::<SliverItem<E>>::empty());
    assert(cache_all(bucket, Seq::<SliverItem<E>>::empty()) == bucket);
}

/// The entries of `es` whose item's parent data asks to keep it alive, in
/// order.
pub open spec fn kept_entries<E>(es: Seq<(usize, SliverItem<E>)>) -> Seq<(usize, SliverItem<E>)>
    decreases es.len(),
{
    if es.len() == 0 {
        Seq::empty()
    } else {
        let rest = kept_entries(es.drop_last());
        if es.last().1.parent_data->0.keep_alive {
            rest.push(es.last())
        } else {
            rest
        }
    }
}

/// Where every item is to be kept alive, keeping the kept items drops none.
proof fn lemma_kept_entries_wf<E>(es: Seq<(usize, SliverItem<E>)>)
    requires
        forall|i: int| 0 <= i < es.len() ==> (#[trigger] es[i]).1.parent_data is Some && es[i].1.parent_data->0.keep_alive,
    ensures
        kept_entries(es) == es,
    decreases es.len(),
{
    if es.len() > 0 {
        let init = es.drop_last();
        assert forall|i: int| 0 <= i < init.len() implies (#[trigger] init[i]).1.parent_data is Some && init[i].1.parent_data->0.keep_alive by {
            assert(init[i] == es[i]);
        }
        lemma_kept_entries_wf(init);
        assert(es[es.len() - 1] == es.last());
        assert(init.push(es.last()) =~= es);
    }
}

proof fn lemma_bucket_view_distinct<E>(entries: Seq<(usize, SliverItem<E>)>)
    ensures
        forall|j: int| 0 <= j < entries.len() ==> bucket_view(entries).contains_key(#[trigger] entries[j].0),
        forall|k: usize| bucket_view(entries).contains_key(k) ==> exists|j: int| 0 <= j < entries.len() && (#[trigger] entries[j]).0 == k,
    decreases entries.len(),
{
    if entries.len() > 0 {
        lemma_bucket_view_distinct(entries.drop_last());
        assert forall|j: int| 0 <= j < entries.len() implies bucket_view(entries).contains_key(#[trigger] entries[j].0) by {
            if j < entries.len() - 1 {
                assert(entries.drop_last()[j] == entries[j]);
            }
        }
        assert forall|k: usize| bucket_view(entries).contains_key(k) implies exists|j: int| 0 <= j < entries.len() && (#[trigger] entries[j]).0 == k by {
            if k != entries.last().0 {
                let init = entries.drop_last();
                assert(bucket_view(init).contains_key(k));
                let j = choose|j: int| 0 <= j < init.len() && (#[trigger] init[j]).0 == k;
                assert(entries[j] == init[j]);
            } else {
                assert(entries[entries.len() - 1].0 == k);
            }
        }
    }
}

/// With distinct indices, the view holds the item of each entry.
proof fn lemma_view_at<E>(entries: Seq<(usize, SliverItem<E>)>, j: int)
    requires
        0 <= j < entries.len(),
        forall|a: int, b: int| 0 <= a < entries.len() && 0 <= b < entries.len() && a != b ==> (#[trigger] entries[a]).0 != (#[trigger] entries[b]).0,
    ensures
        bucket_view(entries).contains_key(entries[j].0),
        bucket_view(entries)[entries[j].0] == entries[j].1,
    decreases entries.len(),
{
    if j < entries.len() - 1 {
        let init = entries.drop_last();
        assert(init[j] == entries[j]);
        assert forall|a: int, b: int| 0 <= a < init.len() && 0 <= b < init.len() && a != b implies (#[trigger] init[a]).0 != (#[trigger] init[b]).0 by {
            assert(init[a] == entries[a] && init[b] == entries[b]);
        }
        lemma_view_at(init, j);
        assert(entries[j].0 != entries[entries.len() - 1].0);
    }
}

/// An index that no entry has is not in the view.
proof fn lemma_absent_from_view<E>(entries: Seq<(usize, SliverItem<E>)>, index: usize)
    requires
        forall|j: int| 0 <= j < entries.len() ==> (#[trigger] entries[j]).0 != index,
    ensures
        !bucket_view(entries).contains_key(index),
{
    lemma_bucket_view_distinct(entries);
}

/// With distinct indices, removing an entry removes its index from the view.
proof fn lemma_remove_from_view<E>(entries: Seq<(usize, SliverItem<E>)>, j: int)
    requires
        0 <= j < entries.len(),
        forall|a: int, b: int| 0 <= a < entries.len() && 0 <= b < entries.len() && a != b ==> (#[trigger] entries[a]).0 != (#[trigger] entries[b]).0,
    ensures
        bucket_view(entries.remove(j)) == bucket_view(entries).remove(entries[j].0),
    decreases entries.len(),
{
    let r = entries.remove(j);
    if j == entries.len() - 1 {
        assert(r =~= entries.drop_last());
        assert forall|l: int| 0 <= l < entries.drop_last().len() implies (#[trigger] entries.drop_last()[l]).0 != entries[j].0 by {
            assert(entries.drop_last()[l] == entries[l]);
        }
        lemma_absent_from_view(entries.drop_last(), entries[j].0);
        assert(bucket_view(r) =~= bucket_view(entries).remove(entries[j].0));
    } else {
        let init = entries.drop_last();
        assert forall|a: int, b: int| 0 <= a < init.len() && 0 <= b < init.len() && a != b implies (#[trigger] init[a]).0 != (#[trigger] init[b]).0 by {
            assert(init[a] == entries[a] && init[b] == entries[b]);
        }
        lemma_remove_from_view(init, j);
        assert(r.drop_last() =~= init.remove(j));
        assert(r.last() == entries.last());
        assert(init[j] == entries[j]);
        assert(entries[j].0 != entries.last().0);
        assert(bucket_view(r) =~= bucket_view(entries).remove(entries[j].0));
    }
}

proof fn lemma_push_keeps_wf<E>(entries: Seq<(usize, SliverItem<E>)>, e: (usize, SliverItem<E>))
    requires
        forall|a: int, b: int| 0 <= a < entries.len() && 0 <= b < entries.len() && a != b ==> (#[trigger] entries[a]).0 != (#[trigger] entries[b]).0,
        forall|j: int| 0 <= j < entries.len() ==> (#[trigger] entries[j]).0 != e.0,
    ensures
        forall|a: int, b: int| 0 <= a < entries.push(e).len() && 0 <= b < entries.push(e).len() && a != b ==> (#[trigger] entries.push(e)[a]).0 != (#[trigger] entries.push(e)[b]).0,
{
    let p = entries.push(e);
    assert forall|a: int, b: int| 0 <= a < p.len() && 0 <= b < p.len() && a != b implies (#[trigger] p[a]).0 != (#[trigger] p[b]).0 by {
        if a < entries.len() {
            assert(p[a] == entries[a]);
        }
        if b < entries.len() {
            assert(p[b] == entries[b]);
        }
    }
}

proof fn lemma_remove_keeps_wf<E>(entries: Seq<(usize, SliverItem<E>)>, j: int)
    requires
        0 <= j < entries.len(),
        forall|a: int, b: int| 0 <= a < entries.len() && 0 <= b < entries.len() && a != b ==> (#[trigger] entries[a]).0 != (#[trigger] entries[b]).0,
    ensures
        forall|a: int, b: int| 0 <= a < entries.remove(j).len() && 0 <= b < entries.remove(j).len() && a != b ==> (#[trigger] entries.remove(j)[a]).0 != (#[trigger] entries.remove(j)[b]).0,
{
    let r = entries.remove(j);
    assert forall|a: int, b: int| 0 <= a < r.len() && 0 <= b < r.len() && a != b implies (#[trigger] r[a]).0 != (#[trigger] r[b]).0 by {
        let oa = if a < j { a } else { a + 1 };
        let ob = if b < j { b } else { b + 1 };
        assert(r[a] == entries[oa] && r[b] == entries[ob]);
    }
}

/// Each item in the view of a well-formed bucket is kept alive under its
/// own index.
proof fn lemma_wf_view_items<E>(entries: Seq<(usize, SliverItem<E>)>)
    requires
        forall|i: int| 0 <= i < entries.len() ==> {
            let e = #[trigger] entries[i];
            &&& e.1.parent_data is Some
            &&& e.1.parent_data->0.kept_alive
            &&& e.1.parent_data->0.keep_alive
            &&& e.1.parent_data->0.index == e.0
        },
    ensures
        forall|k: usize| #[trigger] bucket_view(entries).contains_key(k) ==> {
            let it = bucket_view(entries)[k];
            &&& it.parent_data is Some
            &&& it.parent_data->0.kept_alive
            &&& it.parent_data->0.index == k
        },
    decreases entries.len(),
{
    if entries.len() > 0 {
        let init = entries.drop_last();
        assert forall|i: int| 0 <= i < init.len() implies {
            let e = #[trigger] init[i];
            &&& e.1.parent_data is Some
            &&& e.1.parent_data->0.kept_alive
            &&& e.1.parent_data->0.keep_alive
            &&& e.1.parent_data->0.index == e.0
        } by {
            assert(init[i] == entries[i]);
        }
        lemma_wf_view_items(init);
        assert(entries[entries.len() - 1] == entries.last());
    }
}

proof fn lemma_cache_all_push<E>(bucket: Map<usize, SliverItem<E>>, g: Seq<SliverItem<E>>, it: SliverItem<E>)
    ensures
        cache_all(bucket, g.push(it)) == cache_all(cache_all(bucket, g), seq![it]),
{
    assert(g.push(it).drop_last() =~= g);
    assert(seq![it].drop_last() =~= Seq::<SliverItem<E>>::empty());
    assert(cache_all(cache_all(bucket, g), Seq::<SliverItem<E>>::empty()) == cache_all(bucket, g));
}

} // verus!
