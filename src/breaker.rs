use vstd::prelude::*;

verus! {

/// The three states of a circuit breaker.
#[derive(Debug, Clone, Copy, PartialEq, Eq, Structural)]
pub enum CircuitBreakerState {
    Closed,
    Open,
    HalfOpen,
}

/// The name of a state, as the metrics report it.
pub open spec fn state_label(s: CircuitBreakerState) -> Seq<char> {
    match s {
        CircuitBreakerState::Closed => "Closed"@,
        CircuitBreakerState::Open => "Open"@,
        CircuitBreakerState::HalfOpen => "HalfOpen"@,
    }
}

impl CircuitBreakerState {
    /// The name of the state.
    pub fn label(&self) -> (r: &'static str)
        ensures
            r@ == state_label(*self),
    {
        match self {
            CircuitBreakerState::Closed => "Closed",
            CircuitBreakerState::Open => "Open",
            CircuitBreakerState::HalfOpen => "HalfOpen",
        }
    }
}

/// Mathematical picture of a breaker; times are milliseconds since the epoch.
pub ghost struct BreakerView {
    pub state: CircuitBreakerState,
    pub failure_count: nat,
    pub last_failure_at: Option<int>,
    pub threshold: nat,
    pub timeout_secs: nat,
}

impl BreakerView {
    /// Outside `Closed` the failures have reached the threshold and the time of
    /// the last one is known.
    pub open spec fn wf(self) -> bool {
        &&& self.failure_count <= u32::MAX
        &&& self.threshold <= u32::MAX
        &&& self.timeout_secs <= u64::MAX
        &&& (self.state != CircuitBreakerState::Closed ==> self.failure_count >= self.threshold
            && self.last_failure_at is Some)
    }

    /// Whether `timeout_secs` have passed since the last failure at time `now`.
    pub open spec fn timeout_elapsed(self, now: int) -> bool {
        match self.last_failure_at {
            Some(t) => (if now >= t {
                now - t
            } else {
                0
            }) >= self.timeout_secs * 1000,
            None => false,
        }
    }

    /// The answer of `can_execute` at time `now`.
    pub open spec fn permits(self, now: int) -> bool {
        match self.state {
            CircuitBreakerState::Closed => true,
            CircuitBreakerState::HalfOpen => true,
            CircuitBreakerState::Open => self.timeout_elapsed(now),
        }
    }

    /// The breaker after `can_execute` at time `now`.
    pub open spec fn after_probe(self, now: int) -> BreakerView {
        if self.state == CircuitBreakerState::Open && self.timeout_elapsed(now) {
            BreakerView { state: CircuitBreakerState::HalfOpen, ..self }
        } else {
            self
        }
    }

    /// The breaker after `record_success`.
    pub open spec fn after_success(self) -> BreakerView {
        BreakerView {
            state: CircuitBreakerState::Closed,
            failure_count: 0,
            last_failure_at: None,
            ..self
        }
    }

    /// The breaker after `record_failure` at time `now`; the counter stops at
    /// `u32::MAX`.
    pub open spec fn after_failure(self, now: int) -> BreakerView {
        let count = if self.failure_count < u32::MAX {
            self.failure_count + 1
        } else {
            self.failure_count
        };
        BreakerView {
            state: if count >= self.threshold {
                CircuitBreakerState::Open
            } else {
                self.state
            },
            failure_count: count as nat,
            last_failure_at: Some(now),
            ..self
        }
    }

    /// A breaker that has seen no failure.
    pub open spec fn fresh(threshold: nat, timeout_secs: nat) -> BreakerView {
        BreakerView {
            state: CircuitBreakerState::Closed,
            failure_count: 0,
            last_failure_at: None,
            threshold,
            timeout_secs,
        }
    }

    /// The breaker after one failure at each of the times in `times`, in order.
    pub open spec fn after_failures(self, times: Seq<int>) -> BreakerView
        decreases times.len(),
    {
        if times.len() == 0 {
            self
        } else {
            self.after_failures(times.drop_last()).after_failure(times.last())
        }
    }
}

/// Failures from a fresh breaker: after `k` of them, fewer than the threshold,
/// the breaker is still closed and counts `k`.
proof fn lemma_failures_counted(threshold: nat, timeout_secs: nat, times: Seq<int>)
    requires
        times.len() <= threshold,
        threshold <= u32::MAX,
    ensures
        BreakerView::fresh(threshold, timeout_secs).after_failures(times).failure_count
            == times.len(),
        BreakerView::fresh(threshold, timeout_secs).after_failures(times).threshold == threshold,
        BreakerView::fresh(threshold, timeout_secs).after_failures(times).timeout_secs
            == timeout_secs,
        times.len() < threshold ==> BreakerView::fresh(threshold, timeout_secs).after_failures(
            times,
        ).state == CircuitBreakerState::Closed,
    decreases times.len(),
{
    if times.len() > 0 {
        lemma_failures_counted(threshold, timeout_secs, times.drop_last());
    }
}

/// A fresh breaker with threshold `T > 0` opens after exactly `T` failures: it
/// then refuses every call until `timeout_secs` have passed since the last
/// failure (and a refused probe changes nothing), and the first probe after
/// that is let through and leaves it `HalfOpen`.
pub proof fn lemma_breaker_trips(threshold: nat, timeout_secs: nat, times: Seq<int>, now: int)
    requires
        threshold > 0,
        threshold <= u32::MAX,
        timeout_secs <= u64::MAX,
        times.len() == threshold,
    ensures
        ({
            let b = BreakerView::fresh(threshold, timeout_secs).after_failures(times);
            let last = times.last();
            let elapsed = if now >= last {
                now - last
            } else {
                0
            };
            &&& b.wf()
            &&& b.state == CircuitBreakerState::Open
            &&& b.last_failure_at == Some(last)
            &&& elapsed < timeout_secs * 1000 ==> !b.permits(now) && b.after_probe(now) == b
            &&& elapsed >= timeout_secs * 1000 ==> b.permits(now) && b.after_probe(now).state
                == CircuitBreakerState::HalfOpen
        }),
{
    lemma_failures_counted(threshold, timeout_secs, times.drop_last());
}

/// A success closes any breaker and clears its failure count.
pub proof fn lemma_success_resets(b: BreakerView)
    ensures
        b.after_success().state == CircuitBreakerState::Closed,
        b.after_success().failure_count == 0,
        b.after_success().last_failure_at is None,
        b.wf() ==> b.after_success().wf(),
{
}

/// Per-upstream gate: counts consecutive failures and, once they reach the
/// threshold, refuses calls until the timeout has passed since the last one.
pub struct CircuitBreaker {
    state: CircuitBreakerState,
    failure_count: u32,
    last_failure_at: Option<u64>,
    threshold: u32,
    timeout_secs: u64,
}

impl View for CircuitBreaker {
    type V = BreakerView;

    closed spec fn view(&self) -> BreakerView {
        BreakerView {
            state: self.state,
            failure_count: self.failure_count as nat,
            last_failure_at: match self.last_failure_at {
                Some(t) => Some(t as int),
                None => None,
            },
            threshold: self.threshold as nat,
            timeout_secs: self.timeout_secs as nat,
        }
    }
}

impl CircuitBreaker {
    /// A closed breaker with no failures.
    pub fn new(threshold: u32, timeout_secs: u64) -> (b: CircuitBreaker)
        ensures
            b@ == BreakerView::fresh(threshold as nat, timeout_secs as nat),
            b@.wf(),
    {
        CircuitBreaker {
            state: CircuitBreakerState::Closed,
            failure_count: 0,
            last_failure_at: None,
            threshold,
            timeout_secs,
        }
    }

    /// Whether a call may go out at time `now_ms`; an open breaker whose
    /// timeout has passed moves to `HalfOpen` and lets the call through.
    pub fn can_execute(&mut self, now_ms: u64) -> (r: bool)
        requires
            old(self)@.wf(),
        ensures
            r == old(self)@.permits(now_ms as int),
            final(self)@ == old(self)@.after_probe(now_ms as int),
            final(self)@.wf(),
    {
        match self.state {
            CircuitBreakerState::Closed => true,
            CircuitBreakerState::Open => {
                match self.last_failure_at {
                    Some(last) => {
                        // a clock that went back counts as no time elapsed
                        let elapsed_ms: u64 = if now_ms >= last {
                            now_ms - last
                        } else {
                            0
                        };
                        proof {
                            let e = elapsed_ms as int;
                            let t = self.timeout_secs as int;
                            assert((e / 1000 >= t) <==> (e >= t * 1000)) by (nonlinear_arith)
                                requires
                                    e >= 0,
                                    t >= 0,
                            ;
                        }
                        if elapsed_ms / 1000 >= self.timeout_secs {
                            self.state = CircuitBreakerState::HalfOpen;
                            true
                        } else {
                            false
                        }
                    },
                    None => false,
                }
            },
            CircuitBreakerState::HalfOpen => true,
        }
    }

    /// Closes the breaker and forgets all failures.
    pub fn record_success(&mut self)
        requires
            old(self)@.wf(),
        ensures
            final(self)@ == old(self)@.after_success(),
            final(self)@.state == CircuitBreakerState::Closed,
            final(self)@.failure_count == 0,
            final(self)@.wf(),
    {
        self.failure_count = 0;
        self.state = CircuitBreakerState::Closed;
        self.last_failure_at = None;
    }

    /// Counts one failure at time `now_ms` and opens the breaker once the
    /// count reaches the threshold. Outside `Closed` the count is never below
    /// the threshold, so a failure while `HalfOpen` reopens the breaker at
    /// once.
    pub fn record_failure(&mut self, now_ms: u64)
        requires
            old(self)@.wf(),
        ensures
            final(self)@ == old(self)@.after_failure(now_ms as int),
            final(self)@.wf(),
            old(self)@.state == CircuitBreakerState::HalfOpen ==> final(self)@.state
                == CircuitBreakerState::Open,
    {
        if self.failure_count < u32::MAX {
            self.failure_count = self.failure_count + 1;
        }
        self.last_failure_at = Some(now_ms);
        if self.failure_count >= self.threshold {
            self.state = CircuitBreakerState::Open;
        }
    }

    /// The current state.
    pub fn state(&self) -> (r: CircuitBreakerState)
        ensures
            r == self@.state,
    {
        self.state
    }

    /// The number of failures since the last success.
    pub fn failure_count(&self) -> (r: u32)
        ensures
            r as nat == self@.failure_count,
    {
        self.failure_count
    }

    /// Time of the last failure since the last success, in milliseconds.
    pub fn last_failure_at(&self) -> (r: Option<u64>)
        ensures
            r is Some <==> self@.last_failure_at is Some,
            r is Some ==> self@.last_failure_at == Some(r->0 as int),
    {
        self.last_failure_at
    }
}

} // verus!
