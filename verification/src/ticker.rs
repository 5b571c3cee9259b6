use std::time::Duration;
use vstd::prelude::*;

verus! {

// ---------------------------------------------------------------------------
// std::time::Duration
// ---------------------------------------------------------------------------

/// The length of a `Duration` in nanoseconds, as `Duration::as_nanos` returns it.
pub uninterp spec fn duration_nanos(d: Duration) -> nat;

/// `Duration::from_nanos`: the duration of `nanos` nanoseconds, whose
/// `as_nanos` is `nanos` again.
#[verifier::external_body]
pub(crate) fn duration_from_nanos(nanos: u64) -> (r: Duration)
    ensures
        duration_nanos(r) == nanos,
{
    Duration::from_nanos(nanos)
}

/// `Duration::as_nanos`: the total number of nanoseconds in the duration.
#[verifier::external_body]
pub(crate) fn duration_as_nanos(d: Duration) -> (r: u128)
    ensures
        r == duration_nanos(d),
{
    d.as_nanos()
}

// ---------------------------------------------------------------------------
// Instant and clocks
// ---------------------------------------------------------------------------

/// A point in time of a clock, as nanoseconds since the clock's origin.
#[derive(Clone, Copy, Debug, PartialEq, Eq, PartialOrd, Ord, Hash, Structural)]
pub struct Instant {
    nanos: u64,
}

impl Instant {
    /// The instant `nanos` nanoseconds after the clock's origin.
    pub fn from_nanos(nanos: u64) -> (r: Instant)
        ensures
            r.nanos() == nanos,
    {
        Instant { nanos }
    }

    /// Nanoseconds since the clock's origin.
    pub closed spec fn nanos(&self) -> u64 {
        self.nanos
    }

    /// Nanoseconds since the clock's origin.
    pub fn as_nanos(&self) -> (r: u64)
        ensures
            r == self.nanos(),
    {
        self.nanos
    }

    /// Time from `earlier` to `self`, or zero when `earlier` is later.
    pub fn saturating_duration_since(&self, earlier: Instant) -> (r: Duration)
        ensures
            duration_nanos(r) == saturating_gap(earlier, *self),
    {
        if self.nanos >= earlier.nanos {
            duration_from_nanos(self.nanos - earlier.nanos)
        } else {
            duration_from_nanos(0)
        }
    }
}

/// Nanoseconds from `earlier` to `later`, zero when `later` comes first.
pub open spec fn saturating_gap(earlier: Instant, later: Instant) -> nat {
    if later.nanos() >= earlier.nanos() {
        (later.nanos() - earlier.nanos()) as nat
    } else {
        0
    }
}

/// A source of the current time.
pub trait Clock {
    /// Whether `t` is a reading this clock may give now. A clock that reads
    /// the passing time promises nothing more than some instant; a clock
    /// that is only moved by hand reads exactly the time it shows.
    open spec fn reads(&self, t: Instant) -> bool {
        true
    }

    /// The current time.
    fn now(&self) -> (r: Instant)
        ensures
            self.reads(r),
    ;
}

/// A manually advanced clock for deterministic tests.
#[derive(Debug)]
pub struct TestClock {
    now: Instant,
}

impl TestClock {
    /// A clock standing at its origin.
    pub fn new() -> (r: TestClock)
        ensures
            r.current().nanos() == 0,
    {
        TestClock { now: Instant { nanos: 0 } }
    }

    /// The time the clock shows.
    pub closed spec fn current(&self) -> Instant {
        self.now
    }

    /// Moves the clock forward by `d`.
    pub fn advance(&mut self, d: Duration)
        requires
            old(self).current().nanos() + duration_nanos(d) <= u64::MAX,
        ensures
            final(self).current().nanos() == old(self).current().nanos() + duration_nanos(d),
    {
        let step = duration_as_nanos(d);
        self.now = Instant { nanos: self.now.nanos + step as u64 };
    }
}

impl TestClock {
    /// Moves the clock forward by `d` when the time stays representable;
    /// returns whether it moved.
    pub fn try_advance(&mut self, d: Duration) -> (r: bool)
        ensures
            r == (old(self).current().nanos() + duration_nanos(d) <= u64::MAX),
            r ==> final(self).current().nanos() == old(self).current().nanos() + duration_nanos(d),
            !r ==> final(self).current() == old(self).current(),
    {
        let step = duration_as_nanos(d);
        if step <= (u64::MAX - self.now.nanos) as u128 {
            self.advance(d);
            true
        } else {
            false
        }
    }
}

impl Clock for TestClock {
    open spec fn reads(&self, t: Instant) -> bool {
        t == self.current()
    }

    fn now(&self) -> (r: Instant)
        ensures
            r == self.current(),
    {
        self.now
    }
}

// ---------------------------------------------------------------------------
// Ticker
// ---------------------------------------------------------------------------

/// Settled state of a [`TickerFuture`].
#[derive(Copy, Clone, Debug, Eq, PartialEq, Structural)]
pub enum TickerFutureState {
    Pending,
    Completed,
    Canceled,
}

/// Handle returned by [`Ticker::start`]; its state is read from the ticker
/// that issued it.
#[derive(Copy, Clone, Debug, Eq, PartialEq, Structural)]
pub struct TickerFuture {
    id: usize,
}

impl TickerFuture {
    /// Which start of its ticker this future belongs to (0 for the first).
    pub closed spec fn index(&self) -> nat {
        self.id as nat
    }

    /// Whether the future is still pending (the ticker has not been stopped
    /// or restarted since).
    pub fn is_pending<C: Clock>(&self, ticker: &Ticker<C>) -> (r: bool)
        requires
            ticker.issued(*self),
        ensures
            r == (ticker.future_states()[self.index() as int] == TickerFutureState::Pending),
    {
        match ticker.state_of(self) {
            TickerFutureState::Pending => true,
            _ => false,
        }
    }

    /// Whether the future settled as completed.
    pub fn is_completed<C: Clock>(&self, ticker: &Ticker<C>) -> (r: bool)
        requires
            ticker.issued(*self),
        ensures
            r == (ticker.future_states()[self.index() as int] == TickerFutureState::Completed),
    {
        match ticker.state_of(self) {
            TickerFutureState::Completed => true,
            _ => false,
        }
    }

    /// Whether the future settled as canceled.
    pub fn is_canceled<C: Clock>(&self, ticker: &Ticker<C>) -> (r: bool)
        requires
            ticker.issued(*self),
        ensures
            r == (ticker.future_states()[self.index() as int] == TickerFutureState::Canceled),
    {
        match ticker.state_of(self) {
            TickerFutureState::Canceled => true,
            _ => false,
        }
    }
}

/// Error reported when a ticker future was settled by a canceling stop.
#[derive(Copy, Clone, Debug, Eq, PartialEq, Structural)]
pub struct TickerCanceled;

impl TickerCanceled {
    /// The error's message.
    pub fn to_string(&self) -> (r: String)
        ensures
            r@ == "ticker canceled"@,
    {
        "ticker canceled".to_owned()
    }
}

/// A clock-driven elapsed-time source for animations.
///
/// Created idle. [`Ticker::start`] makes it active from the current clock
/// time and issues a [`TickerFuture`]; starting again cancels the previous
/// future. [`Ticker::stop`] makes it idle and settles the active future.
pub struct Ticker<C: Clock> {
    clock: C,
    started_at: Option<Instant>,
    active_future: Option<usize>,
    futures: Vec<TickerFutureState>,
}

impl<C: Clock> Ticker<C> {
    /// The clock time of the most recent start, while active.
    pub closed spec fn start_time(&self) -> Option<Instant> {
        self.started_at
    }

    /// The state of every future this ticker has issued, oldest first.
    pub closed spec fn future_states(&self) -> Seq<TickerFutureState> {
        self.futures@
    }

    /// The clock the ticker reads.
    pub closed spec fn clock_view(&self) -> C {
        self.clock
    }

    /// Whether `fut` was issued by this ticker.
    pub open spec fn issued(&self, fut: TickerFuture) -> bool {
        fut.index() < self.future_states().len()
    }

    /// The ticker is active exactly when its latest future is pending, and
    /// every earlier future is settled.
    pub closed spec fn wf(&self) -> bool {
        &&& (self.started_at is Some) == (self.active_future is Some)
        &&& self.active_future is Some ==> self.active_future.unwrap() == self.futures@.len() - 1
        &&& forall|i: int| 0 <= i < self.futures@.len() ==>
            (self.futures@[i] == TickerFutureState::Pending <==> (self.active_future == Some(i as usize)))
    }

    /// Whether the ticker is currently active.
    pub open spec fn active(&self) -> bool {
        self.start_time() is Some
    }

    /// The ticker's activity and futures.
    pub open spec fn model(&self) -> TickerModel {
        TickerModel { active: self.active(), futures: self.future_states() }
    }

    /// Create a new idle ticker bound to `clock`.
    pub fn new(clock: C) -> (r: Self)
        ensures
            r.wf(),
            !r.active(),
            r.future_states() == Seq::<TickerFutureState>::empty(),
            r.model() == fresh_model(),
            r.clock_view() == clock,
    {
        Ticker { clock, started_at: None, active_future: None, futures: Vec::new() }
    }

    /// The clock the ticker reads.
    pub fn clock(&self) -> (r: &C)
        ensures
            *r == self.clock_view(),
    {
        &self.clock
    }

    /// Mutable access to the clock, e.g. to advance a test clock.
    pub fn clock_mut(&mut self) -> (r: &mut C)
        ensures
            *r == old(self).clock_view(),
            final(self).clock_view() == *final(r),
            final(self).start_time() == old(self).start_time(),
            final(self).future_states() == old(self).future_states(),
            final(self).wf() == old(self).wf(),
    {
        &mut self.clock
    }

    /// Marks the ticker active from the current clock time and issues a new
    /// pending future; a previous pending future is canceled.
    pub fn start(&mut self) -> (r: TickerFuture)
        requires
            old(self).wf(),
            old(self).future_states().len() + 1 < usize::MAX,
        ensures
            final(self).wf(),
            final(self).active(),
            r.index() == old(self).future_states().len(),
            final(self).future_states() == settle_pending(old(self).future_states(), TickerFutureState::Canceled).push(
                TickerFutureState::Pending,
            ),
            final(self).model() == step(old(self).model(), TickerOp::Start),
            exists|t: Instant| old(self).clock_view().reads(t) && final(self).start_time() == Some(t),
            final(self).clock_view() == old(self).clock_view(),
    {
        if let Some(prev) = self.active_future {
            self.futures.set(prev, TickerFutureState::Canceled);
        }
        let id = self.futures.len();
        self.futures.push(TickerFutureState::Pending);
        self.active_future = Some(id);
        let now = self.clock.now();
        self.started_at = Some(now);
        proof {
            assert(old(self).clock_view().reads(now));
            assert(self.futures@ =~= settle_pending(old(self).futures@, TickerFutureState::Canceled).push(
                TickerFutureState::Pending,
            ));
        }
        TickerFuture { id }
    }

    /// Stops the ticker; the active future settles as `Canceled` when
    /// `canceled`, as `Completed` otherwise. No-op on an idle ticker.
    pub fn stop(&mut self, canceled: bool)
        requires
            old(self).wf(),
        ensures
            final(self).wf(),
            !final(self).active(),
            final(self).future_states() == settle_pending(
                old(self).future_states(),
                if canceled { TickerFutureState::Canceled } else { TickerFutureState::Completed },
            ),
            final(self).model() == step(old(self).model(), TickerOp::Stop(canceled)),
            final(self).clock_view() == old(self).clock_view(),
    {
        self.started_at = None;
        if let Some(id) = self.active_future {
            self.futures.set(id, if canceled { TickerFutureState::Canceled } else { TickerFutureState::Completed });
            self.active_future = None;
        }
        proof {
            assert(self.futures@ =~= settle_pending(
                old(self).futures@,
                if canceled { TickerFutureState::Canceled } else { TickerFutureState::Completed },
            ));
        }
    }

    /// Whether the ticker is currently active.
    pub fn is_active(&self) -> (r: bool)
        ensures
            r == self.active(),
    {
        self.started_at.is_some()
    }

    /// Time elapsed from the most recent start to `now`, saturating at zero;
    /// zero when idle.
    pub fn elapsed_at(&self, now: Instant) -> (r: Duration)
        ensures
            duration_nanos(r) == match self.start_time() {
                Some(start) => saturating_gap(start, now),
                None => 0,
            },
    {
        match self.started_at {
            Some(start) => now.saturating_duration_since(start),
            None => duration_from_nanos(0),
        }
    }

    /// Time elapsed since the most recent start by the ticker's clock
    /// (zero when idle), never negative even if the clock goes backwards.
    pub fn elapsed(&self) -> (r: Duration)
        ensures
            self.start_time() is None ==> duration_nanos(r) == 0,
            self.start_time() is Some ==> exists|now: Instant|
                self.clock_view().reads(now) && duration_nanos(r) == saturating_gap(self.start_time().unwrap(), now),
    {
        match self.started_at {
            Some(_) => {
                let now = self.clock.now();
                self.elapsed_at(now)
            },
            None => duration_from_nanos(0),
        }
    }

    /// Current clock time: a reading of the ticker's clock.
    pub fn now(&self) -> (r: Instant)
        ensures
            self.clock_view().reads(r),
    {
        self.clock.now()
    }

    /// The state of a future this ticker issued.
    pub fn state_of(&self, fut: &TickerFuture) -> (r: TickerFutureState)
        requires
            self.issued(*fut),
        ensures
            r == self.future_states()[fut.index() as int],
    {
        self.futures[fut.id]
    }
}

/// A call that changes a ticker's activity and futures.
#[derive(Clone, Copy, Debug, PartialEq, Eq, Structural)]
pub enum TickerOp {
    /// `start()`.
    Start,
    /// `stop(canceled)`.
    Stop(bool),
}

/// A ticker's activity and the states of the futures it issued.
pub struct TickerModel {
    pub active: bool,
    pub futures: Seq<TickerFutureState>,
}

/// What a call does to a ticker's activity and futures: a start cancels the
/// pending future and issues a new pending one; a stop settles the pending
/// future as canceled or completed.
pub open spec fn step(m: TickerModel, op: TickerOp) -> TickerModel {
    match op {
        TickerOp::Start => TickerModel {
            active: true,
            futures: settle_pending(m.futures, TickerFutureState::Canceled).push(TickerFutureState::Pending),
        },
        TickerOp::Stop(canceled) => TickerModel {
            active: false,
            futures: settle_pending(
                m.futures,
                if canceled { TickerFutureState::Canceled } else { TickerFutureState::Completed },
            ),
        },
    }
}

/// A new ticker: idle, no futures.
pub open spec fn fresh_model() -> TickerModel {
    TickerModel { active: false, futures: Seq::empty() }
}

/// The activity and futures after a sequence of calls on a new ticker.
pub open spec fn replay(ops: Seq<TickerOp>) -> TickerModel
    decreases ops.len(),
{
    if ops.len() == 0 {
        fresh_model()
    } else {
        step(replay(ops.drop_last()), ops.last())
    }
}

/// How many starts a sequence of calls holds.
pub open spec fn starts(ops: Seq<TickerOp>) -> nat
    decreases ops.len(),
{
    if ops.len() == 0 {
        0
    } else {
        starts(ops.drop_last()) + if ops.last() == TickerOp::Start { 1nat } else { 0nat }
    }
}

/// The state of the future issued by the start at position `p`: pending
/// while no call followed it; canceled when the next call was a start or
/// `stop(true)`; completed when it was `stop(false)`.
pub open spec fn outcome(ops: Seq<TickerOp>, p: int) -> TickerFutureState {
    if p + 1 >= ops.len() {
        TickerFutureState::Pending
    } else {
        match ops[p + 1] {
            TickerOp::Start => TickerFutureState::Canceled,
            TickerOp::Stop(canceled) => if canceled {
                TickerFutureState::Canceled
            } else {
                TickerFutureState::Completed
            },
        }
    }
}

/// Settles every pending state as `outcome`, keeping settled ones.
pub open spec fn settle_pending(states: Seq<TickerFutureState>, outcome: TickerFutureState) -> Seq<TickerFutureState> {
    states.map_values(|s: TickerFutureState| if s == TickerFutureState::Pending { outcome } else { s })
}

/// A settled future stays settled: settling the pending states of a ticker
/// (by a start or a stop) leaves every settled state as it was.
pub proof fn law_settled_futures_stay_settled(states: Seq<TickerFutureState>, outcome: TickerFutureState, i: int)
    requires
        0 <= i < states.len(),
        states[i] != TickerFutureState::Pending,
    ensures
        settle_pending(states, outcome)[i] == states[i],
        settle_pending(states, outcome).push(TickerFutureState::Pending)[i] == states[i],
{
}

/// At most one future is pending: a well-formed ticker is active exactly
/// when its latest future is pending, and no earlier future is.
pub proof fn law_only_latest_future_pending<C: Clock>(t: Ticker<C>)
    requires
        t.wf(),
    ensures
        t.active() <==> (t.future_states().len() > 0 && t.future_states().last() == TickerFutureState::Pending),
        forall|i: int| 0 <= i < t.future_states().len() - 1 ==> #[trigger] t.future_states()[i] != TickerFutureState::Pending,
{
    if t.active() {
        assert(t.futures@[t.futures@.len() - 1] == TickerFutureState::Pending);
    }
    if t.future_states().len() > 0 && t.future_states().last() == TickerFutureState::Pending {
        assert(t.futures@[t.futures@.len() - 1] == TickerFutureState::Pending);
    }
}

/// Stopping an idle ticker changes no future.
pub proof fn law_stop_when_idle_changes_nothing<C: Clock>(t: Ticker<C>, outcome: TickerFutureState)
    requires
        t.wf(),
        !t.active(),
    ensures
        settle_pending(t.future_states(), outcome) == t.future_states(),
{
    assert(settle_pending(t.future_states(), outcome) =~= t.future_states());
}

/// Elapsed time is zero at the start, grows with the clock, and adds up over
/// consecutive spans of a clock that does not go back.
pub proof fn law_elapsed_adds_up(start: Instant, a: Instant, b: Instant)
    ensures
        saturating_gap(start, start) == 0,
        a.nanos() <= b.nanos() ==> saturating_gap(start, a) <= saturating_gap(start, b),
        start.nanos() <= a.nanos() <= b.nanos() ==> saturating_gap(start, b) == saturating_gap(start, a)
            + saturating_gap(a, b),
{
}

/// A ticker is active exactly when its latest call was a start: some start
/// happened and no stop came after the latest one.
pub proof fn law_active_follows_latest_call(ops: Seq<TickerOp>)
    ensures
        replay(ops).active == (ops.len() > 0 && ops.last() == TickerOp::Start),
{
}

/// A ticker issues one future per start.
pub proof fn law_one_future_per_start(ops: Seq<TickerOp>)
    ensures
        replay(ops).futures.len() == starts(ops),
    decreases ops.len(),
{
    if ops.len() > 0 {
        law_one_future_per_start(ops.drop_last());
    }
}

/// Starts before position `p` never outnumber those of the whole sequence,
/// and a start at `p` adds one.
proof fn lemma_starts_prefix(ops: Seq<TickerOp>, p: int)
    requires
        0 <= p <= ops.len(),
    ensures
        starts(ops.subrange(0, p)) <= starts(ops),
        p < ops.len() && ops[p] == TickerOp::Start ==> starts(ops.subrange(0, p)) + 1 <= starts(ops),
    decreases ops.len(),
{
    if p < ops.len() {
        let pre = ops.drop_last();
        if p < ops.len() - 1 {
            lemma_starts_prefix(pre, p);
            assert(pre.subrange(0, p) =~= ops.subrange(0, p));
            if ops[p] == TickerOp::Start {
                lemma_starts_prefix(pre, p + 1);
                assert(pre.subrange(0, p + 1) =~= ops.subrange(0, p + 1));
                assert(ops.subrange(0, p + 1).drop_last() =~= ops.subrange(0, p));
            }
        } else {
            assert(pre =~= ops.subrange(0, p));
        }
    } else {
        assert(ops.subrange(0, p) =~= ops);
    }
}

/// The future issued by the start at position `p` is pending while no call
/// followed it; otherwise the next call settled it for good: canceled by a
/// start or `stop(true)`, completed by `stop(false)`. Futures are numbered
/// by the starts that issued them.
pub proof fn law_future_settled_by_next_call(ops: Seq<TickerOp>, p: int)
    requires
        0 <= p < ops.len(),
        ops[p] == TickerOp::Start,
    ensures
        starts(ops.subrange(0, p)) < replay(ops).futures.len(),
        replay(ops).futures[starts(ops.subrange(0, p)) as int] == outcome(ops, p),
    decreases ops.len(),
{
    let f = starts(ops.subrange(0, p)) as int;
    let pre = ops.drop_last();
    law_one_future_per_start(ops);
    law_one_future_per_start(pre);
    lemma_starts_prefix(ops, p);
    if p == ops.len() - 1 {
        assert(pre =~= ops.subrange(0, p));
        assert(replay(pre).futures.len() == f);
    } else {
        law_future_settled_by_next_call(pre, p);
        assert(pre.subrange(0, p) =~= ops.subrange(0, p));
        lemma_starts_prefix(pre, p);
        let prev = replay(pre).futures;
        assert(f < prev.len());
        assert(prev[f] == outcome(pre, p));
        if p + 1 < pre.len() {
            assert(pre[p + 1] == ops[p + 1]);
            assert(outcome(pre, p) == outcome(ops, p));
        }
    }
}

} // verus!
