use vstd::prelude::*;

verus! {

/// An opaque listener identifier, never zero.
#[derive(Copy, Clone, Debug, Eq, PartialEq, Hash, Structural)]
pub struct ListenerId(u64);

impl ListenerId {
    /// The identifier's number.
    pub closed spec fn value(&self) -> u64 {
        self.0
    }

    /// The identifier's number.
    pub fn get(&self) -> (r: u64)
        ensures
            r == self.value(),
    {
        self.0
    }
}

/// Hands out fresh, monotonically increasing listener ids, starting at 1.
///
/// Ids are unique among those one source hands out, so an application that
/// needs ids unique across all its listener sets draws them all from one
/// shared source.
#[derive(Debug)]
pub struct ListenerIdSource {
    next: u64,
}

impl ListenerIdSource {
    /// The number the next id will carry.
    pub closed spec fn upcoming(&self) -> u64 {
        self.next
    }

    /// A source whose first id is 1.
    pub fn new() -> (r: Self)
        ensures
            r.upcoming() == 1,
    {
        ListenerIdSource { next: 1 }
    }

    /// The number the next id will carry.
    pub fn peek(&self) -> (r: u64)
        ensures
            r == self.upcoming(),
    {
        self.next
    }

    /// Allocates a fresh id. Ids from one source strictly increase, so they
    /// never repeat; the counter would overflow only after `u64::MAX - 1` ids.
    pub fn next(&mut self) -> (r: ListenerId)
        requires
            0 < old(self).upcoming() < u64::MAX,
        ensures
            r.value() == old(self).upcoming(),
            final(self).upcoming() == old(self).upcoming() + 1,
            r.value() != 0,
    {
        let raw = self.next;
        self.next = raw + 1;
        ListenerId(raw)
    }
}

/// Storage for listeners keyed by [`ListenerId`], in registration order.
///
/// Dispatch protocol: take [`LocalListeners::dispatch_order`] as a snapshot,
/// then for each id fire the callback returned by [`LocalListeners::get`] if
/// there still is one. Listeners added during a dispatch are not in its
/// snapshot and fire from the next dispatch on; listeners removed during a
/// dispatch are skipped if they have not fired yet.
#[derive(Debug)]
pub struct LocalListeners<C> {
    inner: Vec<(ListenerId, C)>,
}

/// Storage for status-change listeners; same shape as [`LocalListeners`].
pub type LocalStatusListeners<C> = LocalListeners<C>;

impl<C> LocalListeners<C> {
    /// The registered listeners in registration order.
    pub closed spec fn entries(&self) -> Seq<(ListenerId, C)> {
        self.inner@
    }

    /// The registered ids in registration order.
    pub open spec fn ids(&self) -> Seq<ListenerId> {
        self.entries().map_values(|e: (ListenerId, C)| e.0)
    }

    /// No id is registered twice.
    pub open spec fn wf(&self) -> bool {
        forall|i: int, j: int|
            0 <= i < self.entries().len() && 0 <= j < self.entries().len()
                && #[trigger] self.entries()[i].0 == #[trigger] self.entries()[j].0 ==> i == j
    }

    /// Every registered id is numbered below `bound`.
    pub open spec fn ids_below(&self, bound: u64) -> bool {
        forall|i: int| 0 <= i < self.entries().len() ==> (#[trigger] self.entries()[i]).0.value() < bound
    }

    /// Whether `id` is registered.
    pub open spec fn has(&self, id: ListenerId) -> bool {
        exists|i: int| 0 <= i < self.entries().len() && #[trigger] self.entries()[i].0 == id
    }

    /// Create an empty listener set.
    pub fn new() -> (r: Self)
        ensures
            r.wf(),
            r.entries() == Seq::<(ListenerId, C)>::empty(),
    {
        LocalListeners { inner: Vec::new() }
    }

    /// Registers a callback under a fresh id from `ids`.
    pub fn add(&mut self, ids: &mut ListenerIdSource, listener: C) -> (r: ListenerId)
        requires
            old(self).wf(),
            old(self).ids_below(old(ids).upcoming()),
            0 < old(ids).upcoming() < u64::MAX,
        ensures
            final(self).wf(),
            final(self).ids_below(final(ids).upcoming()),
            r.value() == old(ids).upcoming(),
            final(ids).upcoming() == old(ids).upcoming() + 1,
            !old(self).has(r),
            final(self).entries() == old(self).entries().push((r, listener)),
    {
        let id = ids.next();
        self.inner.push((id, listener));
        proof {
            let e = self.inner@;
            assert forall|i: int, j: int|
                0 <= i < e.len() && 0 <= j < e.len() && #[trigger] e[i].0 == #[trigger] e[j].0 implies i == j by {
                if i < e.len() - 1 && j == e.len() - 1 {
                    assert(old(self).entries()[i].0.value() < id.value());
                }
                if j < e.len() - 1 && i == e.len() - 1 {
                    assert(old(self).entries()[j].0.value() < id.value());
                }
            }
            assert forall|i: int| 0 <= i < e.len() implies (#[trigger] e[i]).0.value() < ids.upcoming() by {
                if i < e.len() - 1 {
                    assert(e[i] == old(self).entries()[i]);
                }
            }
            if old(self).has(id) {
                let k = choose|k: int| 0 <= k < old(self).entries().len() && #[trigger] old(self).entries()[k].0 == id;
                assert(old(self).entries()[k].0.value() < id.value());
            }
        }
        id
    }

    /// Position of `id` in registration order, if registered.
    fn position(&self, id: ListenerId) -> (r: Option<usize>)
        requires
            self.wf(),
        ensures
            r is None ==> !self.has(id),
            r matches Some(p) ==> p < self.entries().len() && self.entries()[p as int].0 == id,
    {
        let n = self.inner.len();
        let mut i: usize = 0;
        while i < n
            invariant
                n == self.entries().len(),
                0 <= i <= n,
                forall|j: int| 0 <= j < i ==> self.entries()[j].0 != id,
            decreases n - i,
        {
            if self.inner[i].0 == id {
                return Some(i);
            }
            i += 1;
        }
        None
    }

    /// Removes the callback registered under `id`; no-op if `id` is unknown.
    pub fn remove(&mut self, id: ListenerId)
        requires
            old(self).wf(),
        ensures
            final(self).wf(),
            !final(self).has(id),
            !old(self).has(id) ==> final(self).entries() == old(self).entries(),
            old(self).has(id) ==> exists|p: int|
                0 <= p < old(self).entries().len() && old(self).entries()[p].0 == id
                    && final(self).entries() == old(self).entries().remove(p),
            forall|b: u64| old(self).ids_below(b) ==> final(self).ids_below(b),
    {
        match self.position(id) {
            Some(pos) => {
                let _ = self.inner.remove(pos);
                proof {
                    let o = old(self).entries();
                    let e = self.inner@;
                    assert(e == o.remove(pos as int));
                    assert forall|i: int, j: int|
                        0 <= i < e.len() && 0 <= j < e.len() && #[trigger] e[i].0 == #[trigger] e[j].0 implies i == j by {
                        let oi = if i < pos { i } else { i + 1 };
                        let oj = if j < pos { j } else { j + 1 };
                        assert(e[i] == o[oi]);
                        assert(e[j] == o[oj]);
                    }
                    if self.has(id) {
                        let k = choose|k: int| 0 <= k < e.len() && #[trigger] e[k].0 == id;
                        let ok = if k < pos { k } else { k + 1 };
                        assert(e[k] == o[ok]);
                        assert(o[pos as int].0 == id);
                    }
                    assert forall|b: u64| old(self).ids_below(b) implies self.ids_below(b) by {
                        assert forall|i: int| 0 <= i < e.len() implies (#[trigger] e[i]).0.value() < b by {
                            let oi = if i < pos { i } else { i + 1 };
                            assert(e[i] == o[oi]);
                        }
                    }
                }
            },
            None => {},
        }
    }

    /// The ids to visit in one dispatch, in registration order.
    pub fn dispatch_order(&self) -> (r: Vec<ListenerId>)
        ensures
            r@ == self.ids(),
    {
        let n = self.inner.len();
        let mut out: Vec<ListenerId> = Vec::new();
        let mut i: usize = 0;
        while i < n
            invariant
                n == self.entries().len(),
                0 <= i <= n,
                out@ == self.ids().subrange(0, i as int),
            decreases n - i,
        {
            out.push(self.inner[i].0);
            i += 1;
            proof {
                assert(out@ =~= self.ids().subrange(0, i as int));
            }
        }
        proof {
            assert(out@ =~= self.ids());
        }
        out
    }

    /// The callback registered under `id`, if it is still registered.
    pub fn get(&self, id: ListenerId) -> (r: Option<&C>)
        requires
            self.wf(),
        ensures
            r is None <==> !self.has(id),
            r matches Some(c) ==> exists|p: int|
                0 <= p < self.entries().len() && self.entries()[p].0 == id && self.entries()[p].1 == *c,
    {
        match self.position(id) {
            Some(p) => Some(&self.inner[p].1),
            None => None,
        }
    }

    /// Whether `id` is registered.
    pub fn contains(&self, id: ListenerId) -> (r: bool)
        requires
            self.wf(),
        ensures
            r == self.has(id),
    {
        self.position(id).is_some()
    }

    /// Whether any listener is registered.
    pub fn is_empty(&self) -> (r: bool)
        ensures
            r == (self.entries().len() == 0),
    {
        self.inner.len() == 0
    }

    /// Number of registered listeners.
    pub fn len(&self) -> (r: usize)
        ensures
            r == self.entries().len(),
    {
        self.inner.len()
    }
}

/// Hooks for animations that tick only while observed: called when the
/// first listener attaches to an empty listener set and when the last one
/// detaches.
pub trait LazyListenable {
    /// The first listener attached to a previously empty set.
    fn did_register_listener(&self);

    /// The last listener detached; the set is empty again.
    fn did_unregister_listener(&self);
}

/// Hook for animations that own resources released on explicit disposal.
/// Implementations must make `dispose` idempotent: a second call is a no-op.
pub trait EagerListenable {
    /// Releases the resources.
    fn dispose(&mut self);
}

/// Removing the listener that was just added restores the listeners as they
/// were: the fresh id can only sit at the end.
pub proof fn law_add_then_remove_restores<C>(entries: Seq<(ListenerId, C)>, id: ListenerId, listener: C, p: int)
    requires
        forall|i: int| 0 <= i < entries.len() ==> (#[trigger] entries[i]).0 != id,
        0 <= p < entries.len() + 1,
        entries.push((id, listener))[p].0 == id,
    ensures
        entries.push((id, listener)).remove(p) == entries,
{
    if p < entries.len() {
        assert(entries.push((id, listener))[p] == entries[p]);
    }
    assert(entries.push((id, listener)).remove(p) =~= entries);
}

/// Ids drawn one after another from a source are distinct and increasing.
pub proof fn law_ids_increase(first: ListenerId, second: ListenerId, upcoming: u64)
    requires
        first.value() == upcoming,
        second.value() == upcoming + 1,
    ensures
        first != second,
        first.value() < second.value(),
{
}

} // verus!
