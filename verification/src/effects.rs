use crate::frame::{admitted, DeferPlacement, FlushScope};
use std::collections::{HashSet, VecDeque};
use vstd::prelude::*;

verus! {

/// What an effect does, by the ids it concerns. Entities and global types
/// are identified by numbers.
#[derive(Clone, Copy, Debug, PartialEq, Eq, Structural)]
pub enum EffectKind {
    /// Notify the observers of an entity.
    Notify { emitter: u64 },
    /// Deliver an event emitted by an entity.
    Emit { emitter: u64 },
    /// Redraw every window.
    RefreshWindows,
    /// Notify the observers of a global.
    NotifyGlobalObservers { global_type: u64 },
    /// Run a deferred callback at a placement.
    Defer { placement: DeferPlacement },
    /// Report a newly created entity.
    EntityCreated { entity: u64 },
}

/// An effect queued for the end of an update: its kind and what the app
/// needs to apply it (callbacks, event values).
#[derive(Debug)]
pub struct Effect<P> {
    pub kind: EffectKind,
    pub payload: P,
}

/// Whether an effect may drain at a flush of this scope: only deferred
/// callbacks are filtered by placement.
pub open spec fn drains_at<P>(scope: FlushScope, e: Effect<P>) -> bool {
    match e.kind {
        EffectKind::Defer { placement } => admitted(scope, placement),
        _ => true,
    }
}

/// Whether pushing an effect of this kind queues it, given the entities and
/// globals with a pending notification: a notification already pending is
/// dropped; every other effect is queued.
pub open spec fn push_queues(notified: Set<u64>, notified_globals: Set<u64>, kind: EffectKind) -> bool {
    match kind {
        EffectKind::Notify { emitter } => !notified.contains(emitter),
        EffectKind::NotifyGlobalObservers { global_type } => !notified_globals.contains(global_type),
        _ => true,
    }
}

/// The entities with a pending notification after pushing an effect.
pub open spec fn notified_after_push(notified: Set<u64>, kind: EffectKind) -> Set<u64> {
    match kind {
        EffectKind::Notify { emitter } => notified.insert(emitter),
        _ => notified,
    }
}

/// The globals with a pending notification after pushing an effect.
pub open spec fn globals_after_push(notified_globals: Set<u64>, kind: EffectKind) -> Set<u64> {
    match kind {
        EffectKind::NotifyGlobalObservers { global_type } => notified_globals.insert(global_type),
        _ => notified_globals,
    }
}

/// The entities with a pending notification after taking an effect.
pub open spec fn notified_after_take(notified: Set<u64>, kind: EffectKind) -> Set<u64> {
    match kind {
        EffectKind::Notify { emitter } => notified.remove(emitter),
        _ => notified,
    }
}

/// The globals with a pending notification after taking an effect.
pub open spec fn globals_after_take(notified_globals: Set<u64>, kind: EffectKind) -> Set<u64> {
    match kind {
        EffectKind::NotifyGlobalObservers { global_type } => notified_globals.remove(global_type),
        _ => notified_globals,
    }
}

/// A notification is queued at most once while pending: once pushed, pushing
/// it again is dropped; once taken, it can be queued again.
pub proof fn law_notification_queued_once(notified: Set<u64>, notified_globals: Set<u64>, kind: EffectKind)
    requires
        kind is Notify || kind is NotifyGlobalObservers,
    ensures
        !push_queues(notified_after_push(notified, kind), globals_after_push(notified_globals, kind), kind),
        push_queues(notified_after_take(notified, kind), globals_after_take(notified_globals, kind), kind),
{
}

/// The notification bookkeeping agrees with a queue: every queued `Notify`
/// (`NotifyGlobalObservers`) names a recorded entity (global), every recorded
/// entity (global) has one queued, and no notification is queued twice.
pub open spec fn notifications_agree<P>(q: Seq<Effect<P>>, notified: Set<u64>, notified_globals: Set<u64>) -> bool {
    &&& forall|i: int| 0 <= i < q.len() ==> match (#[trigger] q[i]).kind {
        EffectKind::Notify { emitter } => notified.contains(emitter),
        EffectKind::NotifyGlobalObservers { global_type } => notified_globals.contains(global_type),
        _ => true,
    }
    &&& forall|e: u64| #[trigger] notified.contains(e) ==> exists|i: int|
        0 <= i < q.len() && q[i].kind == (EffectKind::Notify { emitter: e })
    &&& forall|g: u64| #[trigger] notified_globals.contains(g) ==> exists|i: int|
        0 <= i < q.len() && q[i].kind == (EffectKind::NotifyGlobalObservers { global_type: g })
    &&& forall|i: int, j: int| #![trigger q[i], q[j]]
        0 <= i < j < q.len() && (q[i].kind is Notify || q[i].kind is NotifyGlobalObservers) ==> q[i].kind != q[j].kind
}

/// An effect that drains nowhere at some scope is a deferred callback.
proof fn lemma_held_back_is_defer<P>(scope: FlushScope, e: Effect<P>)
    requires
        !drains_at(scope, e),
    ensures
        e.kind is Defer,
{
}

/// Appending a pushed effect keeps the bookkeeping in agreement.
proof fn lemma_agree_push<P>(q: Seq<Effect<P>>, n: Set<u64>, g: Set<u64>, e: Effect<P>)
    requires
        notifications_agree(q, n, g),
        push_queues(n, g, e.kind),
    ensures
        notifications_agree(
            q.push(e),
            match e.kind {
                EffectKind::Notify { emitter } => n.insert(emitter),
                _ => n,
            },
            match e.kind {
                EffectKind::NotifyGlobalObservers { global_type } => g.insert(global_type),
                _ => g,
            },
        ),
{
    let q2 = q.push(e);
    let n2 = match e.kind {
        EffectKind::Notify { emitter } => n.insert(emitter),
        _ => n,
    };
    let g2 = match e.kind {
        EffectKind::NotifyGlobalObservers { global_type } => g.insert(global_type),
        _ => g,
    };
    assert forall|i: int| 0 <= i < q2.len() implies match (#[trigger] q2[i]).kind {
        EffectKind::Notify { emitter } => n2.contains(emitter),
        EffectKind::NotifyGlobalObservers { global_type } => g2.contains(global_type),
        _ => true,
    } by {
        if i < q.len() {
            assert(q2[i] == q[i]);
        }
    }
    assert forall|x: u64| #[trigger] n2.contains(x) implies exists|i: int|
        0 <= i < q2.len() && q2[i].kind == (EffectKind::Notify { emitter: x }) by {
        if n.contains(x) {
            let i = choose|i: int| 0 <= i < q.len() && q[i].kind == (EffectKind::Notify { emitter: x });
            assert(q2[i] == q[i]);
        } else {
            assert(q2[q.len() as int] == e);
        }
    }
    assert forall|x: u64| #[trigger] g2.contains(x) implies exists|i: int|
        0 <= i < q2.len() && q2[i].kind == (EffectKind::NotifyGlobalObservers { global_type: x }) by {
        if g.contains(x) {
            let i = choose|i: int| 0 <= i < q.len() && q[i].kind == (EffectKind::NotifyGlobalObservers { global_type: x });
            assert(q2[i] == q[i]);
        } else {
            assert(q2[q.len() as int] == e);
        }
    }
    assert forall|i: int, j: int| #![trigger q2[i], q2[j]]
        0 <= i < j < q2.len() && (q2[i].kind is Notify || q2[i].kind is NotifyGlobalObservers) implies q2[i].kind != q2[j].kind by {
        assert(q2[i] == q[i]);
        if j < q.len() {
            assert(q2[j] == q[j]);
        } else {
            assert(q2[j] == e);
        }
    }
}

/// Taking the `k`-th effect, after setting aside the ones before it,
/// keeps the bookkeeping in agreement once its notification is cleared.
proof fn lemma_agree_take<P>(q: Seq<Effect<P>>, n: Set<u64>, g: Set<u64>, scope: FlushScope, k: int)
    requires
        notifications_agree(q, n, g),
        0 <= k < q.len(),
        forall|i: int| 0 <= i < k ==> !drains_at(scope, #[trigger] q[i]),
    ensures
        forall|i: int| 0 <= i < k ==> (#[trigger] q[i]).kind is Defer,
        notifications_agree(
            q.subrange(k + 1, q.len() as int),
            match q[k].kind {
                EffectKind::Notify { emitter } => n.remove(emitter),
                _ => n,
            },
            match q[k].kind {
                EffectKind::NotifyGlobalObservers { global_type } => g.remove(global_type),
                _ => g,
            },
        ),
{
    let q2 = q.subrange(k + 1, q.len() as int);
    let n2 = match q[k].kind {
        EffectKind::Notify { emitter } => n.remove(emitter),
        _ => n,
    };
    let g2 = match q[k].kind {
        EffectKind::NotifyGlobalObservers { global_type } => g.remove(global_type),
        _ => g,
    };
    assert forall|i: int| 0 <= i < k implies (#[trigger] q[i]).kind is Defer by {
        lemma_held_back_is_defer(scope, q[i]);
    }
    assert forall|i: int| 0 <= i < q2.len() implies match (#[trigger] q2[i]).kind {
        EffectKind::Notify { emitter } => n2.contains(emitter),
        EffectKind::NotifyGlobalObservers { global_type } => g2.contains(global_type),
        _ => true,
    } by {
        assert(q2[i] == q[k + 1 + i]);
        assert(q[k] == q[k]);
        assert(q[k + 1 + i] == q[k + 1 + i]);
    }
    assert forall|x: u64| #[trigger] n2.contains(x) implies exists|i: int|
        0 <= i < q2.len() && q2[i].kind == (EffectKind::Notify { emitter: x }) by {
        let i = choose|i: int| 0 <= i < q.len() && q[i].kind == (EffectKind::Notify { emitter: x });
        if i < k {
            assert(q[i].kind is Defer);
        } else if i == k {
            assert(!n2.contains(x));
        } else {
            assert(q2[i - k - 1] == q[i]);
        }
    }
    assert forall|x: u64| #[trigger] g2.contains(x) implies exists|i: int|
        0 <= i < q2.len() && q2[i].kind == (EffectKind::NotifyGlobalObservers { global_type: x }) by {
        let i = choose|i: int| 0 <= i < q.len() && q[i].kind == (EffectKind::NotifyGlobalObservers { global_type: x });
        if i < k {
            assert(q[i].kind is Defer);
        } else if i == k {
            assert(!g2.contains(x));
        } else {
            assert(q2[i - k - 1] == q[i]);
        }
    }
    assert forall|i: int, j: int| #![trigger q2[i], q2[j]]
        0 <= i < j < q2.len() && (q2[i].kind is Notify || q2[i].kind is NotifyGlobalObservers) implies q2[i].kind != q2[j].kind by {
        assert(q2[i] == q[k + 1 + i]);
        assert(q2[j] == q[k + 1 + j]);
    }
}

/// When nothing queued drains at a scope, no notification is pending.
proof fn lemma_agree_all_held<P>(q: Seq<Effect<P>>, n: Set<u64>, g: Set<u64>, scope: FlushScope)
    requires
        notifications_agree(q, n, g),
        forall|i: int| 0 <= i < q.len() ==> !drains_at(scope, #[trigger] q[i]),
    ensures
        forall|i: int| 0 <= i < q.len() ==> (#[trigger] q[i]).kind is Defer,
        notifications_agree(Seq::<Effect<P>>::empty(), n, g),
{
    assert forall|i: int| 0 <= i < q.len() implies (#[trigger] q[i]).kind is Defer by {
        lemma_held_back_is_defer(scope, q[i]);
    }
    assert forall|x: u64| !n.contains(x) by {
        if n.contains(x) {
            let i = choose|i: int| 0 <= i < q.len() && q[i].kind == (EffectKind::Notify { emitter: x });
            assert(q[i].kind is Defer);
        }
    }
    assert forall|x: u64| !g.contains(x) by {
        if g.contains(x) {
            let i = choose|i: int| 0 <= i < q.len() && q[i].kind == (EffectKind::NotifyGlobalObservers { global_type: x });
            assert(q[i].kind is Defer);
        }
    }
}

/// Putting deferred callbacks in front of a queue keeps the bookkeeping in
/// agreement.
proof fn lemma_agree_prepend<P>(c: Seq<Effect<P>>, q: Seq<Effect<P>>, n: Set<u64>, g: Set<u64>)
    requires
        notifications_agree(q, n, g),
        forall|i: int| 0 <= i < c.len() ==> (#[trigger] c[i]).kind is Defer,
    ensures
        notifications_agree(c + q, n, g),
{
    let q2 = c + q;
    assert forall|i: int| 0 <= i < q2.len() implies match (#[trigger] q2[i]).kind {
        EffectKind::Notify { emitter } => n.contains(emitter),
        EffectKind::NotifyGlobalObservers { global_type } => g.contains(global_type),
        _ => true,
    } by {
        if i < c.len() {
            assert(q2[i] == c[i]);
        } else {
            assert(q2[i] == q[i - c.len()]);
        }
    }
    assert forall|x: u64| #[trigger] n.contains(x) implies exists|i: int|
        0 <= i < q2.len() && q2[i].kind == (EffectKind::Notify { emitter: x }) by {
        let i = choose|i: int| 0 <= i < q.len() && q[i].kind == (EffectKind::Notify { emitter: x });
        assert(q2[i + c.len()] == q[i]);
    }
    assert forall|x: u64| #[trigger] g.contains(x) implies exists|i: int|
        0 <= i < q2.len() && q2[i].kind == (EffectKind::NotifyGlobalObservers { global_type: x }) by {
        let i = choose|i: int| 0 <= i < q.len() && q[i].kind == (EffectKind::NotifyGlobalObservers { global_type: x });
        assert(q2[i + c.len()] == q[i]);
    }
    assert forall|i: int, j: int| #![trigger q2[i], q2[j]]
        0 <= i < j < q2.len() && (q2[i].kind is Notify || q2[i].kind is NotifyGlobalObservers) implies q2[i].kind != q2[j].kind by {
        if i < c.len() {
            assert(q2[i] == c[i]);
        } else {
            assert(q2[i] == q[i - c.len()]);
            assert(q2[j] == q[j - c.len()]);
        }
    }
}

/// The effects of a queue that drain at `scope`, in queue order.
pub open spec fn drained<P>(q: Seq<Effect<P>>, scope: FlushScope) -> Seq<Effect<P>> {
    q.filter(|e: Effect<P>| drains_at(scope, e))
}

/// The effects of a queue that wait at `scope`, in queue order.
pub open spec fn held_back<P>(q: Seq<Effect<P>>, scope: FlushScope) -> Seq<Effect<P>> {
    q.filter(|e: Effect<P>| !drains_at(scope, e))
}

/// Filtering keeps a sequence whose every element passes.
proof fn lemma_filter_keeps_all<A>(s: Seq<A>, p: spec_fn(A) -> bool)
    requires
        forall|i: int| 0 <= i < s.len() ==> p(#[trigger] s[i]),
    ensures
        s.filter(p) == s,
    decreases s.len(),
{
    reveal(Seq::filter);
    if s.len() > 0 {
        let pre = s.drop_last();
        assert forall|i: int| 0 <= i < pre.len() implies p(#[trigger] pre[i]) by {
            assert(pre[i] == s[i]);
        }
        lemma_filter_keeps_all(pre, p);
        assert(p(s[s.len() - 1]));
        assert(s.filter(p) =~= s);
    }
}

/// Filtering empties a sequence whose every element fails.
proof fn lemma_filter_drops_all<A>(s: Seq<A>, p: spec_fn(A) -> bool)
    requires
        forall|i: int| 0 <= i < s.len() ==> !p(#[trigger] s[i]),
    ensures
        s.filter(p) == Seq::<A>::empty(),
    decreases s.len(),
{
    reveal(Seq::filter);
    if s.len() > 0 {
        let pre = s.drop_last();
        assert forall|i: int| 0 <= i < pre.len() implies !p(#[trigger] pre[i]) by {
            assert(pre[i] == s[i]);
        }
        lemma_filter_drops_all(pre, p);
        assert(!p(s[s.len() - 1]));
    }
}

/// A flush keeps queue order: taking the next admissible effect takes the
/// first of the queue's admissible effects, and the set-aside effects
/// followed by the waiting ones still queued stay the same sequence. So a
/// flush takes the admissible effects in queue order, and the effects it
/// leaves keep theirs.
pub proof fn law_flush_keeps_order<P>(q: Seq<Effect<P>>, set_aside: Seq<Effect<P>>, scope: FlushScope, k: int)
    requires
        0 <= k < q.len(),
        drains_at(scope, q[k]),
        forall|i: int| 0 <= i < k ==> !drains_at(scope, #[trigger] q[i]),
    ensures
        drained(q, scope) == seq![q[k]] + drained(q.subrange(k + 1, q.len() as int), scope),
        set_aside + held_back(q, scope) == (set_aside + q.subrange(0, k)) + held_back(
            q.subrange(k + 1, q.len() as int),
            scope,
        ),
{
    let d = |e: Effect<P>| drains_at(scope, e);
    let w = |e: Effect<P>| !drains_at(scope, e);
    let pre = q.subrange(0, k);
    let rest = q.subrange(k + 1, q.len() as int);
    assert(q =~= pre + (seq![q[k]] + rest));
    Seq::filter_distributes_over_add(pre, seq![q[k]] + rest, d);
    Seq::filter_distributes_over_add(pre, seq![q[k]] + rest, w);
    rest.lemma_filter_prepend(q[k], d);
    rest.lemma_filter_prepend(q[k], w);
    lemma_filter_drops_all(pre, d);
    lemma_filter_keeps_all(pre, w);
    assert(pre.filter(d) + (seq![q[k]] + rest.filter(d)) =~= seq![q[k]] + rest.filter(d));
    assert(set_aside + (pre + (Seq::<Effect<P>>::empty() + rest.filter(w))) =~= (set_aside + pre) + rest.filter(w));
}

/// When no queued effect drains at a scope, a flush takes nothing and
/// holds every effect back, in order.
pub proof fn law_flush_ends_holding_back<P>(q: Seq<Effect<P>>, scope: FlushScope)
    requires
        forall|i: int| 0 <= i < q.len() ==> !drains_at(scope, #[trigger] q[i]),
    ensures
        drained(q, scope) == Seq::<Effect<P>>::empty(),
        held_back(q, scope) == q,
{
    lemma_filter_drops_all(q, |e: Effect<P>| drains_at(scope, e));
    lemma_filter_keeps_all(q, |e: Effect<P>| !drains_at(scope, e));
}

/// The queue of pending effects, with the notification dedup sets.
///
/// A `Notify` for an entity (or a `NotifyGlobalObservers` for a global) is
/// queued only if no such notification is pending; it stops being pending
/// when it is taken to be applied. A flush takes effects front to back with
/// [`EffectQueue::take_next`]; deferred callbacks whose placement does not
/// drain at the flush's scope are set aside, and [`EffectQueue::end_flush`]
/// puts them back at the front in their original order.
pub struct EffectQueue<P> {
    pending: VecDeque<Effect<P>>,
    pending_notifications: HashSet<u64>,
    pending_global_notifications: HashSet<u64>,
    carry: Vec<Effect<P>>,
}

impl<P> EffectQueue<P> {
    /// The queued effects, front first.
    pub closed spec fn queued(&self) -> Seq<Effect<P>> {
        self.pending@
    }

    /// The effects set aside during the current flush, in queue order.
    pub closed spec fn set_aside(&self) -> Seq<Effect<P>> {
        self.carry@
    }

    /// Entities with a pending notification.
    pub closed spec fn notified(&self) -> Set<u64> {
        self.pending_notifications@
    }

    /// Globals with a pending notification.
    pub closed spec fn notified_globals(&self) -> Set<u64> {
        self.pending_global_notifications@
    }

    /// The queue's invariant: the notification sets agree with the queued
    /// notifications, and only deferred callbacks are ever set aside.
    pub open spec fn wf(&self) -> bool {
        &&& notifications_agree(self.queued(), self.notified(), self.notified_globals())
        &&& forall|i: int| 0 <= i < self.set_aside().len() ==> (#[trigger] self.set_aside()[i]).kind is Defer
    }

    /// An empty queue.
    pub fn new() -> (r: Self)
        ensures
            r.wf(),
            r.queued() == Seq::<Effect<P>>::empty(),
            r.set_aside() == Seq::<Effect<P>>::empty(),
            r.notified() == Set::<u64>::empty(),
            r.notified_globals() == Set::<u64>::empty(),
    {
        EffectQueue {
            pending: VecDeque::new(),
            pending_notifications: HashSet::new(),
            pending_global_notifications: HashSet::new(),
            carry: Vec::new(),
        }
    }

    /// Queues an effect, unless it is a notification already pending.
    /// Returns whether it was queued.
    pub fn push(&mut self, effect: Effect<P>) -> (queued: bool)
        requires
            old(self).wf(),
        ensures
            final(self).wf(),
            queued == push_queues(old(self).notified(), old(self).notified_globals(), effect.kind),
            !(effect.kind is Notify) && !(effect.kind is NotifyGlobalObservers) ==> queued,
            queued ==> final(self).queued() == old(self).queued().push(effect),
            !queued ==> final(self).queued() == old(self).queued(),
            final(self).notified() == notified_after_push(old(self).notified(), effect.kind),
            final(self).notified_globals() == globals_after_push(old(self).notified_globals(), effect.kind),
            final(self).set_aside() == old(self).set_aside(),
    {
        match effect.kind {
            EffectKind::Notify { emitter } => {
                if !self.pending_notifications.insert(emitter) {
                    proof {
                        assert(self.pending_notifications@ =~= old(self).pending_notifications@);
                    }
                    return false;
                }
            },
            EffectKind::NotifyGlobalObservers { global_type } => {
                if !self.pending_global_notifications.insert(global_type) {
                    proof {
                        assert(self.pending_global_notifications@ =~= old(self).pending_global_notifications@);
                    }
                    return false;
                }
            },
            _ => {},
        }
        proof {
            lemma_agree_push(old(self).queued(), old(self).notified(), old(self).notified_globals(), effect);
        }
        self.pending.push_back(effect);
        true
    }

    /// Takes the next effect that drains at `scope`, setting aside the
    /// deferred callbacks before it that do not. Taking a notification ends
    /// its pending state. `None` when no queued effect drains at `scope`.
    pub fn take_next(&mut self, scope: FlushScope) -> (r: Option<Effect<P>>)
        requires
            old(self).wf(),
        ensures
            final(self).wf(),
            r is None ==> final(self).queued() == Seq::<Effect<P>>::empty()
                && final(self).set_aside() == old(self).set_aside() + old(self).queued()
                && (forall|i: int| 0 <= i < old(self).queued().len() ==> !drains_at(scope, #[trigger] old(self).queued()[i])),
            r matches Some(e) ==> exists|k: int| {
                &&& 0 <= k < old(self).queued().len()
                &&& old(self).queued()[k] == e
                &&& drains_at(scope, e)
                &&& forall|i: int| 0 <= i < k ==> !drains_at(scope, #[trigger] old(self).queued()[i])
                &&& final(self).set_aside() == old(self).set_aside() + old(self).queued().subrange(0, k)
                &&& final(self).queued() == old(self).queued().subrange(k + 1, old(self).queued().len() as int)
            },
            final(self).notified() == (match r {
                Some(e) => notified_after_take(old(self).notified(), e.kind),
                None => old(self).notified(),
            }),
            final(self).notified_globals() == (match r {
                Some(e) => globals_after_take(old(self).notified_globals(), e.kind),
                None => old(self).notified_globals(),
            }),
    {
        let ghost q0 = self.pending@;
        let ghost c0 = self.carry@;
        let ghost mut k: int = 0;
        loop
            invariant
                q0 == old(self).pending@,
                c0 == old(self).carry@,
                0 <= k <= q0.len(),
                self.pending@ == q0.subrange(k, q0.len() as int),
                self.carry@ == c0 + q0.subrange(0, k),
                forall|i: int| 0 <= i < k ==> !drains_at(scope, #[trigger] q0[i]),
                notifications_agree(q0, old(self).notified(), old(self).notified_globals()),
                forall|i: int| 0 <= i < c0.len() ==> (#[trigger] c0[i]).kind is Defer,
                self.pending_notifications@ == old(self).pending_notifications@,
                self.pending_global_notifications@ == old(self).pending_global_notifications@,
            decreases q0.len() - k,
        {
            match self.pending.pop_front() {
                None => {
                    proof {
                        assert(q0.subrange(k, q0.len() as int).len() == 0);
                        assert(k == q0.len());
                        assert(q0.subrange(0, k) =~= q0);
                        assert(self.pending@ =~= Seq::<Effect<P>>::empty());
                        lemma_agree_all_held(q0, old(self).notified(), old(self).notified_globals(), scope);
                        assert forall|i: int| 0 <= i < self.set_aside().len()
                            implies (#[trigger] self.set_aside()[i]).kind is Defer by {
                            if i >= c0.len() {
                                assert(self.set_aside()[i] == q0[i - c0.len()]);
                            }
                        }
                    }
                    return None;
                },
                Some(effect) => {
                    proof {
                        assert(k < q0.len());
                        assert(effect == q0[k]);
                    }
                    let deferred_elsewhere = match effect.kind {
                        EffectKind::Defer { placement } => !scope.admits(placement),
                        _ => false,
                    };
                    if deferred_elsewhere {
                        self.carry.push(effect);
                        proof {
                            assert(self.carry@ =~= c0 + q0.subrange(0, k + 1));
                            assert(self.pending@ =~= q0.subrange(k + 1, q0.len() as int));
                        }
                        proof {
                            k = k + 1;
                        }
                    } else {
                        match effect.kind {
                            EffectKind::Notify { emitter } => {
                                self.pending_notifications.remove(&emitter);
                            },
                            EffectKind::NotifyGlobalObservers { global_type } => {
                                self.pending_global_notifications.remove(&global_type);
                            },
                            _ => {},
                        }
                        proof {
                            assert(self.pending@ =~= q0.subrange(k + 1, q0.len() as int));
                            assert(drains_at(scope, effect));
                            lemma_agree_take(q0, old(self).notified(), old(self).notified_globals(), scope, k);
                            assert forall|i: int| 0 <= i < self.set_aside().len()
                                implies (#[trigger] self.set_aside()[i]).kind is Defer by {
                                if i >= c0.len() {
                                    assert(self.set_aside()[i] == q0[i - c0.len()]);
                                }
                            }
                            let kk = k;
                            assert(0 <= kk < old(self).queued().len() && old(self).queued()[kk] == effect
                                && drains_at(scope, effect)
                                && (forall|i: int| 0 <= i < kk ==> !drains_at(scope, #[trigger] old(self).queued()[i]))
                                && self.set_aside() == old(self).set_aside() + old(self).queued().subrange(0, kk)
                                && self.queued() == old(self).queued().subrange(kk + 1, old(self).queued().len() as int));
                        }
                        return Some(effect);
                    }
                },
            }
        }
    }

    /// Ends a flush: puts the set-aside effects back at the front of the
    /// queue, in their original order, ahead of anything queued meanwhile.
    pub fn end_flush(&mut self)
        requires
            old(self).wf(),
        ensures
            final(self).wf(),
            final(self).queued() == old(self).set_aside() + old(self).queued(),
            final(self).set_aside() == Seq::<Effect<P>>::empty(),
            final(self).notified() == old(self).notified(),
            final(self).notified_globals() == old(self).notified_globals(),
    {
        let ghost c0 = self.carry@;
        let ghost q0 = self.pending@;
        while self.carry.len() > 0
            invariant
                self.carry@ == c0.subrange(0, self.carry@.len() as int),
                self.pending@ == c0.subrange(self.carry@.len() as int, c0.len() as int) + q0,
                self.carry@.len() <= c0.len(),
                self.pending_notifications@ == old(self).pending_notifications@,
                self.pending_global_notifications@ == old(self).pending_global_notifications@,
            decreases self.carry@.len(),
        {
            match self.carry.pop() {
                Some(effect) => {
                    self.pending.push_front(effect);
                    proof {
                        let n = self.carry@.len() as int;
                        assert(self.carry@ =~= c0.subrange(0, n));
                        assert(self.pending@ =~= c0.subrange(n, c0.len() as int) + q0);
                    }
                },
                None => {},
            }
        }
        proof {
            assert(self.pending@ =~= c0 + q0);
            lemma_agree_prepend(c0, q0, old(self).notified(), old(self).notified_globals());
        }
    }

    /// Whether no effect is queued.
    pub fn is_empty(&self) -> (r: bool)
        ensures
            r == (self.queued().len() == 0),
    {
        self.pending.len() == 0
    }

    /// Number of queued effects.
    pub fn len(&self) -> (r: usize)
        ensures
            r == self.queued().len(),
    {
        self.pending.len()
    }
}

/// Only notifications are deduplicated: any other effect is queued whatever
/// notifications are pending, and leaves the pending sets as they were.
pub proof fn law_only_notifications_deduplicated(notified: Set<u64>, notified_globals: Set<u64>, kind: EffectKind)
    requires
        !(kind is Notify),
        !(kind is NotifyGlobalObservers),
    ensures
        push_queues(notified, notified_globals, kind),
        notified_after_push(notified, kind) == notified,
        globals_after_push(notified_globals, kind) == notified_globals,
{
}

} // verus!
