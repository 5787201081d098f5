//! State cells shared between the UI pass and the elements that read them.
//!
//! A cell keeps its value and the identities of the elements that read it.
//! Each element subscribes at most once; when the value changes, every
//! subscriber whose element is still alive is notified and the others are
//! dropped.
use vstd::prelude::*;

verus! {

/// The subscribers of `subs` whose element is still alive, in order.
pub open spec fn kept_subscribers(subs: Seq<usize>, live: Seq<usize>) -> Seq<usize>
    decreases subs.len(),
{
    if subs.len() == 0 {
        Seq::empty()
    } else {
        let kept = kept_subscribers(subs.drop_last(), live);
        if live.contains(subs.last()) {
            kept.push(subs.last())
        } else {
            kept
        }
    }
}

/// The subscribers after `id` subscribes: an element that already
/// subscribed keeps its place.
pub open spec fn with_subscriber(subs: Seq<usize>, id: usize) -> Seq<usize> {
    if subs.contains(id) {
        subs
    } else {
        subs.push(id)
    }
}

/// A state cell: a value and the elements that subscribed to it.
pub struct GenericState<T> {
    /// The value; always present between calls, taken out only while an
    /// update runs.
    pub cell: Option<T>,
    /// The identities of the subscribed elements, each once.
    pub subscribers: Vec<usize>,
}

impl<T> GenericState<T> {
    /// Every element is subscribed at most once.
    pub open spec fn wf(&self) -> bool {
        &&& self.cell is Some
        &&& self.subscribers@.no_duplicates()
    }

    /// The value of the cell.
    pub open spec fn value(&self) -> T {
        self.cell->0
    }

    /// A cell holding `v`, with no subscriber.
    pub fn new(v: T) -> (s: Self)
        ensures
            s.wf(),
            s.value() == v,
            s.subscribers@ == Seq::<usize>::empty(),
    {
        GenericState { cell: Some(v), subscribers: Vec::new() }
    }

    /// The value.
    pub fn get(&self) -> (v: &T)
        requires
            self.wf(),
        ensures
            *v == self.value(),
    {
        self.cell.as_ref().unwrap()
    }

    /// The value, read by the element `reader` if there is one, which then
    /// subscribes to the cell.
    pub fn get_subscribed(&mut self, reader: Option<usize>) -> (v: &T)
        requires
            old(self).wf(),
        ensures
            final(self).wf(),
            final(self).value() == old(self).value(),
            final(self).subscribers@ == match reader {
                Some(id) => with_subscriber(old(self).subscribers@, id),
                None => old(self).subscribers@,
            },
            *v == old(self).value(),
    {
        match reader {
            Some(id) => self.add_subscriber(id),
            None => {},
        }
        self.cell.as_ref().unwrap()
    }

    /// Subscribes the element `id`; an element that already subscribed stays
    /// as it was.
    pub fn add_subscriber(&mut self, id: usize)
        requires
            old(self).wf(),
        ensures
            final(self).wf(),
            final(self).value() == old(self).value(),
            final(self).subscribers@ == with_subscriber(old(self).subscribers@, id),
    {
        if !contains_id(&self.subscribers, id) {
            self.subscribers.push(id);
        }
    }

    /// Notifies the subscribers whose element is alive (listed in `live`)
    /// and drops the others. Returns the notified elements.
    pub fn notify_subscribers(&mut self, live: &Vec<usize>) -> (notified: Vec<usize>)
        requires
            old(self).wf(),
        ensures
            final(self).wf(),
            final(self).value() == old(self).value(),
            final(self).subscribers@ == kept_subscribers(old(self).subscribers@, live@),
            notified@ == final(self).subscribers@,
    {
        let mut kept: Vec<usize> = Vec::new();
        let n = self.subscribers.len();
        let mut i: usize = 0;
        while i < n
            invariant
                n == self.subscribers@.len(),
                i <= n,
                self.wf(),
                self.cell == old(self).cell,
                self.subscribers@ == old(self).subscribers@,
                kept@ == kept_subscribers(self.subscribers@.take(i as int), live@),
            decreases n - i,
        {
            assert(self.subscribers@.take(i + 1).drop_last() =~= self.subscribers@.take(i as int));
            let id = self.subscribers[i];
            if contains_id(live, id) {
                kept.push(id);
            }
            i += 1;
        }
        assert(self.subscribers@.take(n as int) =~= self.subscribers@);
        proof {
            lemma_kept_no_duplicates(self.subscribers@, live@);
        }
        self.subscribers = kept;
        self.subscribers.clone()
    }

    /// Replaces the value and notifies the subscribers.
    pub fn set(&mut self, val: T, live: &Vec<usize>) -> (notified: Vec<usize>)
        requires
            old(self).wf(),
        ensures
            final(self).wf(),
            final(self).value() == val,
            final(self).subscribers@ == kept_subscribers(old(self).subscribers@, live@),
            notified@ == final(self).subscribers@,
    {
        self.cell = Some(val);
        self.notify_subscribers(live)
    }

    /// Changes the value with `updater`, notifies the subscribers and
    /// returns what `updater` returned with the notified elements.
    ///
    /// `updater` gets the value and hands back the new value beside its
    /// result.
    pub fn update<R, F: FnOnce(T) -> (T, R)>(&mut self, updater: F, live: &Vec<usize>) -> (r: (
        R,
        Vec<usize>,
    ))
        requires
            old(self).wf(),
            call_requires(updater, (old(self).value(),)),
        ensures
            final(self).wf(),
            call_ensures(updater, (old(self).value(),), (final(self).value(), r.0)),
            final(self).subscribers@ == kept_subscribers(old(self).subscribers@, live@),
            r.1@ == final(self).subscribers@,
    {
        let val = self.cell.take().unwrap();
        let (val, ret) = updater(val);
        self.cell = Some(val);
        let notified = self.notify_subscribers(live);
        (ret, notified)
    }

    /// Drops every subscriber.
    pub fn clear_subscribers(&mut self)
        requires
            old(self).wf(),
        ensures
            final(self).wf(),
            final(self).value() == old(self).value(),
            final(self).subscribers@ == Seq::<usize>::empty(),
    {
        self.subscribers = Vec::new();
    }
}

/// A piece of state kept in the element arena beside the render objects.
pub struct StateObject<T> {
    pub object: T,
}

impl<T> StateObject<T> {
    /// Keeps `object`.
    pub fn new(object: T) -> (s: Self)
        ensures
            s.object == object,
    {
        StateObject { object }
    }
}

/// Whether `id` is in `v`.
fn contains_id(v: &Vec<usize>, id: usize) -> (b: bool)
    ensures
        b == v@.contains(id),
{
    let mut i: usize = 0;
    while i < v.len()
        invariant
            i <= v@.len(),
            forall|j: int| 0 <= j < i ==> v@[j] != id,
        decreases v@.len() - i,
    {
        if v[i] == id {
            return true;
        }
        i += 1;
    }
    false
}

/// After a notification, only subscribers that were subscribed and whose
/// element is alive remain.
pub proof fn lemma_kept_subset(subs: Seq<usize>, live: Seq<usize>)
    ensures
        forall|x: usize| kept_subscribers(subs, live).contains(x) ==> subs.contains(x) && live.contains(x),
    decreases subs.len(),
{
    if subs.len() > 0 {
        lemma_kept_subset(subs.drop_last(), live);
        assert forall|x: usize| kept_subscribers(subs, live).contains(x) implies subs.contains(x)
            && live.contains(x) by {
            let k = kept_subscribers(subs.drop_last(), live);
            if k.contains(x) {
                let j = choose|j: int| 0 <= j < k.len() && k[j] == x;
                assert(subs.drop_last().contains(x));
                let l = choose|l: int| 0 <= l < subs.drop_last().len() && subs.drop_last()[l] == x;
                assert(subs[l] == x);
            } else {
                assert(x == subs.last());
                assert(subs[subs.len() - 1] == x);
            }
        }
    }
}

proof fn lemma_kept_no_duplicates(subs: Seq<usize>, live: Seq<usize>)
    requires
        subs.no_duplicates(),
    ensures
        kept_subscribers(subs, live).no_duplicates(),
    decreases subs.len(),
{
    if subs.len() > 0 {
        let init = subs.drop_last();
        assert(init.no_duplicates()) by {
            assert forall|i: int, j: int| 0 <= i < init.len() && 0 <= j < init.len() && i != j implies init[i]
                != init[j] by {
                assert(init[i] == subs[i] && init[j] == subs[j]);
            }
        }
        lemma_kept_no_duplicates(init, live);
        lemma_kept_subset(init, live);
        if init.contains(subs.last()) {
            let l = choose|l: int| 0 <= l < init.len() && init[l] == subs.last();
            assert(subs[l] == subs[subs.len() - 1]);
        }
    }
}

/// Subscribing the same element twice subscribes it once.
pub proof fn lemma_subscribe_idempotent(subs: Seq<usize>, id: usize)
    ensures
        with_subscriber(with_subscriber(subs, id), id) == with_subscriber(subs, id),
{
    if !subs.contains(id) {
        assert(subs.push(id)[subs.len() as int] == id);
    }
}

/// A subscribed element whose element is alive is notified.
pub proof fn lemma_live_subscriber_notified(subs: Seq<usize>, id: usize, live: Seq<usize>)
    requires
        live.contains(id),
    ensures
        kept_subscribers(with_subscriber(subs, id), live).contains(id),
{
    if subs.contains(id) {
        lemma_kept_contains(subs, live, id);
    } else {
        assert(subs.push(id).drop_last() =~= subs);
        let k = kept_subscribers(subs, live);
        assert(k.push(id)[k.len() as int] == id);
    }
}

proof fn lemma_kept_contains(subs: Seq<usize>, live: Seq<usize>, id: usize)
    requires
        subs.contains(id),
        live.contains(id),
    ensures
        kept_subscribers(subs, live).contains(id),
    decreases subs.len(),
{
    let k = kept_subscribers(subs.drop_last(), live);
    if subs.last() == id {
        assert(k.push(id)[k.len() as int] == id);
    } else {
        let j = choose|j: int| 0 <= j < subs.len() && subs[j] == id;
        assert(subs.drop_last()[j] == id);
        lemma_kept_contains(subs.drop_last(), live, id);
        let l = choose|l: int| 0 <= l < k.len() && k[l] == id;
        if live.contains(subs.last()) {
            assert(k.push(subs.last())[l] == id);
        }
    }
}

/// Notifying twice with the same living elements drops nothing more than
/// notifying once.
pub proof fn lemma_notify_idempotent(subs: Seq<usize>, live: Seq<usize>)
    ensures
        kept_subscribers(kept_subscribers(subs, live), live) == kept_subscribers(subs, live),
    decreases subs.len(),
{
    if subs.len() > 0 {
        let k = kept_subscribers(subs.drop_last(), live);
        lemma_notify_idempotent(subs.drop_last(), live);
        if live.contains(subs.last()) {
            assert(k.push(subs.last()).drop_last() =~= k);
        }
    }
}

} // verus!
