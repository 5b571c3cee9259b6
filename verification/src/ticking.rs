use vstd::prelude::*;

verus! {

/// What ticking one registered animation came to during a frame's
/// animation-tick phase.
#[derive(Clone, Copy, Debug, PartialEq, Eq, Hash, Structural)]
pub enum TickReport {
    /// Its owner was dropped between frames: it is evicted without a tick.
    Gone,
    /// It ticked and keeps animating: it stays registered and its observers
    /// are notified.
    Continue,
    /// It ticked and settled: it leaves the set until it registers again.
    Done,
}

/// No target id occurs twice.
pub open spec fn distinct_targets(s: Seq<u64>) -> bool {
    forall|i: int, j: int| 0 <= i < s.len() && 0 <= j < s.len() && #[trigger] s[i] == #[trigger] s[j] ==> i == j
}

/// The targets among the first `n` whose report is `Continue`, in order.
pub open spec fn kept(targets: Seq<u64>, reports: Seq<TickReport>, n: nat) -> Seq<u64>
    decreases n,
{
    if n == 0 {
        Seq::empty()
    } else {
        let rest = kept(targets, reports, (n - 1) as nat);
        if reports[n - 1] == TickReport::Continue {
            rest.push(targets[n - 1])
        } else {
            rest
        }
    }
}

/// How many of the first `n` targets were still alive and ticked.
pub open spec fn ticked(reports: Seq<TickReport>, n: nat) -> nat
    decreases n,
{
    if n == 0 {
        0
    } else {
        ticked(reports, (n - 1) as nat) + if reports[n - 1] == TickReport::Gone { 0nat } else { 1nat }
    }
}

/// The animations walked in each frame's animation-tick phase, by target
/// id, in registration order.
#[derive(Debug)]
pub struct ActiveAnimations {
    targets: Vec<u64>,
}

impl View for ActiveAnimations {
    type V = Seq<u64>;

    closed spec fn view(&self) -> Seq<u64> {
        self.targets@
    }
}

impl ActiveAnimations {
    /// No target is registered twice.
    pub open spec fn wf(&self) -> bool {
        distinct_targets(self@)
    }

    /// Nothing registered.
    pub fn new() -> (r: Self)
        ensures
            r.wf(),
            r@ == Seq::<u64>::empty(),
    {
        ActiveAnimations { targets: Vec::new() }
    }

    /// Position of `id`, if registered.
    fn position(&self, id: u64) -> (r: Option<usize>)
        ensures
            r is None ==> !self@.contains(id),
            r matches Some(p) ==> p < self@.len() && self@[p as int] == id,
    {
        let n = self.targets.len();
        let mut i: usize = 0;
        while i < n
            invariant
                n == self@.len(),
                0 <= i <= n,
                forall|j: int| 0 <= j < i ==> self@[j] != id,
            decreases n - i,
        {
            if self.targets[i] == id {
                return Some(i);
            }
            i += 1;
        }
        None
    }

    /// Whether `id` is registered.
    pub fn contains(&self, id: u64) -> (r: bool)
        ensures
            r == self@.contains(id),
    {
        self.position(id).is_some()
    }

    /// Registers `id` for ticking; registering it again changes nothing.
    pub fn register(&mut self, id: u64)
        requires
            old(self).wf(),
        ensures
            final(self).wf(),
            final(self)@ == (if old(self)@.contains(id) { old(self)@ } else { old(self)@.push(id) }),
    {
        if self.position(id).is_none() {
            self.targets.push(id);
            proof {
                let o = old(self)@;
                let e = self@;
                assert forall|i: int, j: int|
                    0 <= i < e.len() && 0 <= j < e.len() && #[trigger] e[i] == #[trigger] e[j] implies i == j by {
                    if i < o.len() && j == o.len() {
                        assert(o.contains(o[i]));
                    }
                    if j < o.len() && i == o.len() {
                        assert(o.contains(o[j]));
                    }
                }
            }
        }
    }

    /// Drops `id` from the set; no-op if it is not registered.
    pub fn unregister(&mut self, id: u64)
        requires
            old(self).wf(),
        ensures
            final(self).wf(),
            !final(self)@.contains(id),
            !old(self)@.contains(id) ==> final(self)@ == old(self)@,
            old(self)@.contains(id) ==> exists|p: int|
                0 <= p < old(self)@.len() && old(self)@[p] == id && final(self)@ == old(self)@.remove(p),
    {
        match self.position(id) {
            Some(pos) => {
                let _ = self.targets.remove(pos);
                proof {
                    let o = old(self)@;
                    let e = self@;
                    assert(e == o.remove(pos as int));
                    assert forall|i: int, j: int|
                        0 <= i < e.len() && 0 <= j < e.len() && #[trigger] e[i] == #[trigger] e[j] implies i == j by {
                        let oi = if i < pos { i } else { i + 1 };
                        let oj = if j < pos { j } else { j + 1 };
                        assert(e[i] == o[oi]);
                        assert(e[j] == o[oj]);
                    }
                    if e.contains(id) {
                        let k = choose|k: int| 0 <= k < e.len() && e[k] == id;
                        let ok = if k < pos { k } else { k + 1 };
                        assert(e[k] == o[ok]);
                    }
                }
            },
            None => {},
        }
    }

    /// The registered targets, in the order a tick walk visits them.
    pub fn targets(&self) -> (r: Vec<u64>)
        ensures
            r@ == self@,
    {
        let n = self.targets.len();
        let mut out: Vec<u64> = Vec::new();
        let mut i: usize = 0;
        while i < n
            invariant
                n == self@.len(),
                0 <= i <= n,
                out@ == self@.subrange(0, i as int),
            decreases n - i,
        {
            out.push(self.targets[i]);
            i += 1;
            proof {
                assert(out@ =~= self@.subrange(0, i as int));
            }
        }
        proof {
            assert(out@ =~= self@);
        }
        out
    }

    /// Whether nothing is registered, so the tick phase has nothing to do.
    pub fn is_empty(&self) -> (r: bool)
        ensures
            r == (self@.len() == 0),
    {
        self.targets.len() == 0
    }

    /// Number of registered targets.
    pub fn len(&self) -> (r: usize)
        ensures
            r == self@.len(),
    {
        self.targets.len()
    }

    /// Ends a tick walk over [`Self::targets`], given what each target's
    /// tick came to: the continuing targets stay, in order, and every other
    /// one leaves. Returns how many targets were alive and ticked.
    pub fn finish_tick(&mut self, reports: &Vec<TickReport>) -> (visited: usize)
        requires
            old(self).wf(),
            reports@.len() == old(self)@.len(),
        ensures
            final(self).wf(),
            final(self)@ == kept(old(self)@, reports@, old(self)@.len()),
            visited == ticked(reports@, old(self)@.len()),
    {
        let n = self.targets.len();
        let mut keep: Vec<u64> = Vec::new();
        let mut visited: usize = 0;
        let mut i: usize = 0;
        while i < n
            invariant
                n == self@.len(),
                n == reports@.len(),
                0 <= i <= n,
                self@ == old(self)@,
                distinct_targets(self@),
                keep@ == kept(self@, reports@, i as nat),
                visited == ticked(reports@, i as nat),
                visited <= i,
                distinct_targets(keep@),
                forall|k: int| #![trigger keep@[k]] 0 <= k < keep@.len() ==> exists|j: int| 0 <= j < i && #[trigger] self@[j] == keep@[k],
            decreases n - i,
        {
            let t = self.targets[i];
            let report = reports[i];
            proof {
                assert(reports@[i as int] == report);
            }
            if report == TickReport::Continue {
                proof {
                    let kk = keep@;
                    assert forall|k: int| 0 <= k < kk.len() implies kk[k] != t by {
                        let j = choose|j: int| 0 <= j < i && #[trigger] self@[j] == kk[k];
                        assert(self@[j] == kk[k]);
                    }
                }
                let ghost before = keep@;
                keep.push(t);
                proof {
                    let e = keep@;
                    assert forall|a: int, b: int|
                        0 <= a < e.len() && 0 <= b < e.len() && #[trigger] e[a] == #[trigger] e[b] implies a == b by {
                        if a < before.len() && b == before.len() {
                            assert(e[a] == before[a]);
                        }
                        if b < before.len() && a == before.len() {
                            assert(e[b] == before[b]);
                        }
                    }
                    assert forall|k: int| #![trigger e[k]] 0 <= k < e.len() implies exists|j: int|
                        0 <= j < i + 1 && #[trigger] self@[j] == e[k] by {
                        if k < before.len() {
                            assert(e[k] == before[k]);
                            let j = choose|j: int| 0 <= j < i && #[trigger] self@[j] == before[k];
                            assert(self@[j] == e[k]);
                        } else {
                            assert(self@[i as int] == e[k]);
                        }
                    }
                }
            } else {
                proof {
                    let kk = keep@;
                    assert forall|k: int| #![trigger kk[k]] 0 <= k < kk.len() implies exists|j: int|
                        0 <= j < i + 1 && #[trigger] self@[j] == kk[k] by {
                        let j = choose|j: int| 0 <= j < i && #[trigger] self@[j] == kk[k];
                        assert(self@[j] == kk[k]);
                    }
                }
            }
            if report != TickReport::Gone {
                visited = visited + 1;
            }
            i += 1;
        }
        self.targets = keep;
        visited
    }
}

/// After a tick walk over distinct targets, a target is still registered
/// exactly when its tick reported `Continue`.
pub proof fn law_only_continuing_targets_stay(targets: Seq<u64>, reports: Seq<TickReport>, i: int)
    requires
        distinct_targets(targets),
        reports.len() == targets.len(),
        0 <= i < targets.len(),
    ensures
        kept(targets, reports, targets.len()).contains(targets[i]) <==> reports[i] == TickReport::Continue,
{
    lemma_kept_members(targets, reports, targets.len());
    if kept(targets, reports, targets.len()).contains(targets[i]) {
        let x = targets[i];
        let j = choose|j: int| 0 <= j < targets.len() && targets[j] == x && reports[j] == TickReport::Continue;
        assert(targets[j] == targets[i]);
    } else {
        if reports[i] == TickReport::Continue {
            assert(targets[i] == targets[i]);
        }
    }
}

/// Members of `kept` are exactly the first `n` targets whose report is
/// `Continue`.
proof fn lemma_kept_members(targets: Seq<u64>, reports: Seq<TickReport>, n: nat)
    requires
        n <= targets.len(),
        n <= reports.len(),
    ensures
        forall|x: u64| #[trigger] kept(targets, reports, n).contains(x) <==> exists|j: int|
            0 <= j < n && targets[j] == x && reports[j] == TickReport::Continue,
    decreases n,
{
    if n > 0 {
        let m = (n - 1) as nat;
        lemma_kept_members(targets, reports, m);
        let rest = kept(targets, reports, m);
        assert forall|x: u64| #[trigger] kept(targets, reports, n).contains(x) <==> exists|j: int|
            0 <= j < n && targets[j] == x && reports[j] == TickReport::Continue by {
            if reports[m as int] == TickReport::Continue {
                let e = rest.push(targets[m as int]);
                if e.contains(x) {
                    let k = choose|k: int| 0 <= k < e.len() && e[k] == x;
                    if k < rest.len() {
                        assert(rest[k] == e[k]);
                        assert(rest.contains(x));
                    } else {
                        assert(targets[m as int] == x);
                    }
                }
                if exists|j: int| 0 <= j < n && targets[j] == x && reports[j] == TickReport::Continue {
                    let j = choose|j: int| 0 <= j < n && targets[j] == x && reports[j] == TickReport::Continue;
                    if j == m {
                        assert(e[rest.len() as int] == x);
                    } else {
                        assert(rest.contains(x));
                        let k = choose|k: int| 0 <= k < rest.len() && rest[k] == x;
                        assert(e[k] == x);
                    }
                }
            } else {
                if exists|j: int| 0 <= j < n && targets[j] == x && reports[j] == TickReport::Continue {
                    let j = choose|j: int| 0 <= j < n && targets[j] == x && reports[j] == TickReport::Continue;
                    assert(j != m);
                }
            }
        }
    }
}

/// Registering a target that was not registered and then unregistering it
/// restores the set: the new target can only sit at the end.
pub proof fn law_register_then_unregister_restores(targets: Seq<u64>, id: u64, p: int)
    requires
        !targets.contains(id),
        0 <= p <= targets.len(),
        targets.push(id)[p] == id,
    ensures
        targets.push(id).remove(p) == targets,
{
    if p < targets.len() {
        assert(targets.push(id)[p] == targets[p]);
        assert(targets.contains(targets[p]));
    }
    assert(targets.push(id).remove(p) =~= targets);
}

} // verus!
