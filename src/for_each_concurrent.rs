use vstd::prelude::*;

use crate::Upstream;

verus! {

/// What one poll of the task pool reported.
pub enum PoolPoll {
    /// one task completed and left the pool
    Completed,
    /// the pool holds no task
    Empty,
    /// tasks are in the pool and none is ready
    Pending,
}

/// What the fan-out decided at the end of one round of its poll loop.
pub enum FanStep {
    /// something moved this round: run another round
    Continue,
    /// nothing moved: suspend until woken
    Pending,
    /// the upstream is exhausted and every task has completed
    Complete,
}

/// `limit` with zero read as no bound.
pub open spec fn normalized_limit(limit: Option<usize>) -> Option<usize> {
    match limit {
        Some(k) => if k > 0 { Some(k) } else { None },
        None => None,
    }
}

/// Runs an asynchronous task for each item of an upstream sequence, with at
/// most `limit` tasks in the pool at once, and completes once the upstream is
/// exhausted and every task has completed.
///
/// The caller owns the upstream, the item transform and the pool: it polls
/// the upstream only when `wants_item` says so, pushes the task of each item
/// handed back by `on_stream`, and reports each poll of the pool to `on_pool`.
pub struct ForEachConcurrent<T> {
    stream_present: bool,
    limit: Option<usize>,
    in_flight: usize,
    progress: bool,
    dispatched: Ghost<Seq<T>>,
    completed: Ghost<nat>,
}

impl<T> ForEachConcurrent<T> {
    /// Whether the upstream may still produce items.
    pub closed spec fn present(&self) -> bool {
        self.stream_present
    }

    /// The bound on tasks in the pool; `None` for no bound.
    pub closed spec fn limit(&self) -> Option<usize> {
        self.limit
    }

    /// The number of tasks in the pool.
    pub closed spec fn in_flight(&self) -> nat {
        self.in_flight as nat
    }

    /// Whether the current round of the poll loop has moved anything yet.
    pub closed spec fn progress(&self) -> bool {
        self.progress
    }

    /// The items handed out for dispatch so far, in order.
    pub closed spec fn dispatched(&self) -> Seq<T> {
        self.dispatched@
    }

    /// The number of tasks that have completed.
    pub closed spec fn completed(&self) -> nat {
        self.completed@
    }

    /// The limit is positive, the pool never holds more tasks than it, and
    /// every dispatched item's task has either completed or is in the pool.
    pub open spec fn wf(&self) -> bool {
        &&& match self.limit() {
            Some(k) => 0 < k && self.in_flight() <= k,
            None => true,
        }
        &&& self.dispatched().len() == self.completed() + self.in_flight()
    }

    /// Whether a new item may be pulled: the upstream is present and the pool
    /// has room (without a bound, room while its size fits a `usize`).
    pub open spec fn can_admit(&self) -> bool {
        &&& self.present()
        &&& match self.limit() {
            Some(k) => self.in_flight() < k,
            None => self.in_flight() < usize::MAX,
        }
    }

    /// Whether the upstream is gone and the pool is empty.
    pub open spec fn terminal(&self) -> bool {
        !self.present() && self.in_flight() == 0
    }

    /// The state after the upstream reported `ev` in the admission part of a round.
    pub closed spec fn after_stream(self, ev: Upstream<T>) -> Self {
        match ev {
            Upstream::Item(x) => ForEachConcurrent {
                in_flight: (self.in_flight + 1) as usize,
                progress: true,
                dispatched: Ghost(self.dispatched@.push(x)),
                ..self
            },
            Upstream::Pending => self,
            Upstream::Exhausted => ForEachConcurrent { stream_present: false, progress: true, ..self },
        }
    }

    /// The state after the pool reported `ev` in the drain part of a round,
    /// and the decision that ends the round.
    pub closed spec fn after_pool(self, ev: PoolPoll) -> (Self, FanStep) {
        let s = match ev {
            PoolPoll::Completed => ForEachConcurrent {
                in_flight: (self.in_flight - 1) as usize,
                progress: true,
                completed: Ghost(self.completed@ + 1),
                ..self
            },
            _ => self,
        };
        let step = if ev is Empty && !self.stream_present {
            FanStep::Complete
        } else if s.progress {
            FanStep::Continue
        } else {
            FanStep::Pending
        };
        (ForEachConcurrent { progress: false, ..s }, step)
    }

    /// A fan-out over an upstream not yet polled, with an empty pool. A `limit`
    /// of zero means no bound.
    pub fn new(limit: Option<usize>) -> (r: Self)
        ensures
            r.wf(),
            r.present(),
            r.limit() == normalized_limit(limit),
            r.in_flight() == 0,
            !r.progress(),
            r.dispatched() == Seq::<T>::empty(),
            r.completed() == 0,
    {
        let limit = match limit {
            Some(k) => if k > 0 { Some(k) } else { None },
            None => None,
        };
        ForEachConcurrent {
            stream_present: true,
            limit,
            in_flight: 0,
            progress: false,
            dispatched: Ghost(Seq::empty()),
            completed: Ghost(0),
        }
    }

    /// The admission check that opens a round: whether to poll the upstream now.
    pub fn wants_item(&self) -> (r: bool)
        ensures
            r == self.can_admit(),
    {
        if !self.stream_present {
            return false;
        }
        match self.limit {
            Some(k) => self.in_flight < k,
            None => self.in_flight < usize::MAX,
        }
    }

    /// Takes what the upstream reported when admission allowed a poll. An item
    /// is handed back, to be turned into a task and pushed into the pool; an
    /// exhausted upstream is dropped.
    pub fn on_stream(&mut self, ev: Upstream<T>) -> (r: Option<T>)
        requires
            old(self).wf(),
            old(self).can_admit(),
        ensures
            final(self).wf(),
            *final(self) == old(self).after_stream(ev),
            r == match ev {
                Upstream::Item(x) => Some(x),
                _ => None,
            },
            final(self).limit() == old(self).limit(),
            final(self).completed() == old(self).completed(),
            match ev {
                Upstream::Item(x) => {
                    &&& final(self).in_flight() == old(self).in_flight() + 1
                    &&& final(self).dispatched() == old(self).dispatched().push(x)
                    &&& final(self).present()
                    &&& final(self).progress()
                },
                Upstream::Pending => *final(self) == *old(self),
                Upstream::Exhausted => {
                    &&& final(self).in_flight() == old(self).in_flight()
                    &&& final(self).dispatched() == old(self).dispatched()
                    &&& !final(self).present()
                    &&& final(self).progress()
                },
            },
    {
        match ev {
            Upstream::Item(x) => {
                self.in_flight = self.in_flight + 1;
                self.progress = true;
                self.dispatched = Ghost(self.dispatched@.push(x));
                Some(x)
            },
            Upstream::Pending => None,
            Upstream::Exhausted => {
                self.stream_present = false;
                self.progress = true;
                None
            },
        }
    }

    /// Takes what one poll of the pool reported, and ends the round: complete
    /// when the pool is empty with the upstream gone, else run another round
    /// if anything moved in this one, else suspend.
    pub fn on_pool(&mut self, ev: PoolPoll) -> (r: FanStep)
        requires
            old(self).wf(),
            (ev is Empty) == (old(self).in_flight() == 0),
        ensures
            final(self).wf(),
            (*final(self), r) == old(self).after_pool(ev),
            (r is Complete) == old(self).terminal(),
            (r is Continue) == (!old(self).terminal() && (old(self).progress() || ev is Completed)),
            final(self).present() == old(self).present(),
            final(self).limit() == old(self).limit(),
            final(self).dispatched() == old(self).dispatched(),
            !final(self).progress(),
            ev is Completed ==> {
                &&& final(self).in_flight() == old(self).in_flight() - 1
                &&& final(self).completed() == old(self).completed() + 1
            },
            !(ev is Completed) ==> {
                &&& final(self).in_flight() == old(self).in_flight()
                &&& final(self).completed() == old(self).completed()
            },
    {
        if let PoolPoll::Completed = ev {
            self.in_flight = self.in_flight - 1;
            self.progress = true;
            self.completed = Ghost(self.completed@ + 1);
        }
        let step = if matches!(ev, PoolPoll::Empty) && !self.stream_present {
            FanStep::Complete
        } else if self.progress {
            FanStep::Continue
        } else {
            FanStep::Pending
        };
        self.progress = false;
        step
    }

    /// The number of tasks in the pool, as counted by dispatches and completions.
    pub fn pool_size(&self) -> (r: usize)
        ensures
            r == self.in_flight(),
    {
        self.in_flight
    }

    /// Whether the fan-out has nothing left to do: upstream gone, pool empty.
    pub fn is_terminated(&self) -> (r: bool)
        ensures
            r == self.terminal(),
    {
        !self.stream_present && self.in_flight == 0
    }
}

/// One report handed to the fan-out: from the upstream or from the pool.
pub enum FanEvent<T> {
    Stream(Upstream<T>),
    Pool(PoolPoll),
}

/// The state after the reports `evs`, taken one after the other.
pub open spec fn run_fan<T>(f: ForEachConcurrent<T>, evs: Seq<FanEvent<T>>) -> ForEachConcurrent<T>
    decreases evs.len(),
{
    if evs.len() == 0 {
        f
    } else {
        match evs[0] {
            FanEvent::Stream(e) => run_fan(f.after_stream(e), evs.drop_first()),
            FanEvent::Pool(p) => run_fan(f.after_pool(p).0, evs.drop_first()),
        }
    }
}

/// Whether `evs` is a series of reports that a driver can hand in from `f`: the
/// upstream is polled only when admission allows, and the pool reports empty
/// exactly when it holds no task.
pub open spec fn valid_trace<T>(f: ForEachConcurrent<T>, evs: Seq<FanEvent<T>>) -> bool
    decreases evs.len(),
{
    if evs.len() == 0 {
        true
    } else {
        match evs[0] {
            FanEvent::Stream(e) => f.can_admit() && valid_trace(f.after_stream(e), evs.drop_first()),
            FanEvent::Pool(p) => (p is Empty) == (f.in_flight() == 0) && valid_trace(
                f.after_pool(p).0,
                evs.drop_first(),
            ),
        }
    }
}

/// The items that the upstream produced in a series of reports, in order.
pub open spec fn upstream_items<T>(evs: Seq<FanEvent<T>>) -> Seq<T>
    decreases evs.len(),
{
    if evs.len() == 0 {
        Seq::empty()
    } else {
        let rest = upstream_items(evs.drop_first());
        match evs[0] {
            FanEvent::Stream(Upstream::Item(x)) => seq![x] + rest,
            _ => rest,
        }
    }
}

/// Whether the upstream reported exhaustion in a series of reports.
pub open spec fn upstream_exhausted<T>(evs: Seq<FanEvent<T>>) -> bool {
    exists|i: int| 0 <= i < evs.len() && (#[trigger] evs[i]) == FanEvent::<T>::Stream(Upstream::Exhausted)
}

/// At every point the pool holds no more tasks than the limit.
pub proof fn lemma_bound<T>(f: ForEachConcurrent<T>)
    requires
        f.wf(),
    ensures
        f.limit() matches Some(k) ==> f.in_flight() <= k,
{
}

proof fn lemma_steps_wf<T>(f: ForEachConcurrent<T>)
    requires
        f.wf(),
    ensures
        forall|e: Upstream<T>| f.can_admit() ==> (#[trigger] f.after_stream(e)).wf(),
        forall|p: PoolPoll| (p is Empty) == (f.in_flight() == 0) ==> (#[trigger] f.after_pool(p)).0.wf(),
{
}

/// Along any series of reports that a driver can hand in, each item that the
/// upstream produces is handed out for dispatch exactly once, in upstream
/// order, whatever the limit, and the bound holds throughout.
pub proof fn lemma_coverage<T>(f: ForEachConcurrent<T>, evs: Seq<FanEvent<T>>)
    requires
        f.wf(),
        valid_trace(f, evs),
    ensures
        run_fan(f, evs).wf(),
        run_fan(f, evs).dispatched() == f.dispatched() + upstream_items(evs),
        run_fan(f, evs).limit() == f.limit(),
    decreases evs.len(),
{
    lemma_steps_wf(f);
    if evs.len() == 0 {
        assert(f.dispatched() + upstream_items(evs) =~= f.dispatched());
    } else {
        let rest = evs.drop_first();
        match evs[0] {
            FanEvent::Stream(e) => {
                let g = f.after_stream(e);
                lemma_coverage(g, rest);
                match e {
                    Upstream::Item(x) => {
                        assert(f.dispatched() + upstream_items(evs) =~= g.dispatched() + upstream_items(rest));
                    },
                    _ => {
                        assert(upstream_items(evs) == upstream_items(rest));
                    },
                }
            },
            FanEvent::Pool(p) => {
                lemma_coverage(f.after_pool(p).0, rest);
                assert(upstream_items(evs) == upstream_items(rest));
            },
        }
    }
}

/// Admission is blocked only by a full pool, and a completion in a round makes
/// room again for the next one: a present upstream is never left unpolled
/// while the pool is empty.
pub proof fn lemma_admission_progress<T>(f: ForEachConcurrent<T>)
    requires
        f.wf(),
        f.present(),
    ensures
        f.can_admit() || f.in_flight() > 0,
        f.in_flight() > 0 ==> f.after_pool(PoolPoll::Completed).0.can_admit(),
{
}

/// With no bound, or with a bound at least the number of items the upstream
/// produces, admission is never refused while the upstream is present and an
/// item is still to come: every item is pulled as soon as it can be.
pub proof fn lemma_unbounded_equivalence<T>(f: ForEachConcurrent<T>, total: nat)
    requires
        f.wf(),
        f.present(),
        f.dispatched().len() < total,
        match f.limit() {
            Some(k) => total <= k,
            None => total <= usize::MAX,
        },
    ensures
        f.can_admit(),
{
}

/// The fan-out completes exactly when the upstream is gone and the pool is
/// empty, and then every dispatched task has completed; along a series of
/// reports it is terminal only if the upstream reported exhaustion.
pub proof fn lemma_termination<T>(f: ForEachConcurrent<T>, evs: Seq<FanEvent<T>>)
    requires
        f.wf(),
        f.present(),
        valid_trace(f, evs),
        run_fan(f, evs).terminal(),
    ensures
        upstream_exhausted(evs),
        run_fan(f, evs).completed() == run_fan(f, evs).dispatched().len(),
        forall|p: PoolPoll| #[trigger] run_fan(f, evs).after_pool(p).1 is Complete <==> p is Empty,
    decreases evs.len(),
{
    lemma_coverage(f, evs);
    lemma_steps_wf(f);
    if evs.len() > 0 {
        let rest = evs.drop_first();
        match evs[0] {
            FanEvent::Stream(e) => {
                let g = f.after_stream(e);
                if e is Exhausted {
                    assert(evs[0] == FanEvent::<T>::Stream(Upstream::Exhausted));
                } else {
                    lemma_termination(g, rest);
                    let i = choose|i: int| 0 <= i < rest.len() && (#[trigger] rest[i]) == FanEvent::<T>::Stream(Upstream::Exhausted);
                    assert(evs[i + 1] == rest[i]);
                }
            },
            FanEvent::Pool(p) => {
                lemma_termination(f.after_pool(p).0, rest);
                let i = choose|i: int| 0 <= i < rest.len() && (#[trigger] rest[i]) == FanEvent::<T>::Stream(Upstream::Exhausted);
                assert(evs[i + 1] == rest[i]);
            },
        }
    }
}

/// One round of the poll loop against an upstream that yields the items of
/// `rest` without suspending, and a pool in which a task completes whenever it
/// is polled: the new state, the items still to come, and the decision.
pub open spec fn eager_round<T>(f: ForEachConcurrent<T>, rest: Seq<T>) -> (ForEachConcurrent<T>, Seq<T>, FanStep) {
    let (f1, r1) = if !f.can_admit() {
        (f, rest)
    } else if rest.len() > 0 {
        (f.after_stream(Upstream::Item(rest[0])), rest.drop_first())
    } else {
        (f.after_stream(Upstream::Exhausted), rest)
    };
    let (f2, step) = f1.after_pool(if f1.in_flight() == 0 { PoolPoll::Empty } else { PoolPoll::Completed });
    (f2, r1, step)
}

/// At most `n` such rounds, stopping at completion: the state reached, and
/// whether the fan-out completed.
pub open spec fn eager_rounds<T>(f: ForEachConcurrent<T>, rest: Seq<T>, n: nat) -> (ForEachConcurrent<T>, bool)
    decreases n,
{
    if n == 0 {
        (f, false)
    } else {
        let (f2, r2, step) = eager_round(f, rest);
        if step is Complete {
            (f2, true)
        } else {
            eager_rounds(f2, r2, (n - 1) as nat)
        }
    }
}

/// Against an upstream with the items of `rest` and a pool whose tasks complete
/// when polled, the fan-out completes within one round per item and one more,
/// whatever the limit, having dispatched every item once, in order, and seen
/// every task complete.
pub proof fn lemma_eventual_completion<T>(f: ForEachConcurrent<T>, rest: Seq<T>)
    requires
        f.wf(),
        f.present(),
        f.in_flight() == 0,
    ensures
        eager_rounds(f, rest, rest.len() + 1).1,
        eager_rounds(f, rest, rest.len() + 1).0.dispatched() == f.dispatched() + rest,
        eager_rounds(f, rest, rest.len() + 1).0.terminal(),
        eager_rounds(f, rest, rest.len() + 1).0.completed() == eager_rounds(f, rest, rest.len() + 1).0.dispatched().len(),
    decreases rest.len(),
{
    if rest.len() == 0 {
        assert(f.dispatched() + rest =~= f.dispatched());
    } else {
        let (f2, r2, step) = eager_round(f, rest);
        assert(r2 == rest.drop_first());
        lemma_eventual_completion(f2, r2);
        assert(f.dispatched() + rest =~= f2.dispatched() + r2);
    }
}

} // verus!
