use vstd::prelude::*;
use crate::breaker::{BreakerView, CircuitBreaker, CircuitBreakerState};
use crate::config::Config;
use crate::text::same_text;

verus! {

/// The two upstream processors: the cheaper one tried first, and the other.
#[derive(Debug, Clone, Copy, PartialEq, Eq, Structural)]
pub enum Upstream {
    Default,
    Fallback,
}

/// How one attempt at an upstream went: refused by its breaker, answered
/// with success, or failed.
#[derive(Debug, Clone, Copy, PartialEq, Eq, Structural)]
pub enum AttemptResult {
    Skipped,
    Succeeded,
    Failed,
}

/// The final result of dispatching one payment.
#[derive(Debug, Clone, Copy, PartialEq, Eq, Structural)]
pub enum DispatchOutcome {
    Processed(Upstream),
    Failed,
}

/// What the dispatcher does next: call an upstream, or commit an outcome.
#[derive(Debug, Clone, Copy, PartialEq, Eq, Structural)]
pub enum RouteStep {
    Call(Upstream),
    Finish(DispatchOutcome),
}

/// The routing policy: a success ends the route with that upstream; a
/// refusal or failure at the default moves on to the fallback, and at the
/// fallback ends the route as failed.
pub open spec fn route_step(upstream: Upstream, result: AttemptResult) -> RouteStep {
    if result == AttemptResult::Succeeded {
        RouteStep::Finish(DispatchOutcome::Processed(upstream))
    } else if upstream == Upstream::Default {
        RouteStep::Call(Upstream::Fallback)
    } else {
        RouteStep::Finish(DispatchOutcome::Failed)
    }
}

/// The outcome of a whole route, given how the default went and how the
/// fallback would go.
pub open spec fn route_outcome(default: AttemptResult, fallback: AttemptResult) -> DispatchOutcome {
    match route_step(Upstream::Default, default) {
        RouteStep::Finish(o) => o,
        RouteStep::Call(u) => match route_step(u, fallback) {
            RouteStep::Finish(o) => o,
            RouteStep::Call(_) => DispatchOutcome::Failed,
        },
    }
}

/// Every route starts at the default upstream.
pub fn first_route_step() -> (r: RouteStep)
    ensures
        r == RouteStep::Call(Upstream::Default),
{
    RouteStep::Call(Upstream::Default)
}

/// The step after an attempt at `upstream` that ended with `result`.
pub fn next_route_step(upstream: Upstream, result: AttemptResult) -> (r: RouteStep)
    ensures
        r == route_step(upstream, result),
{
    match result {
        AttemptResult::Succeeded => RouteStep::Finish(DispatchOutcome::Processed(upstream)),
        _ => match upstream {
            Upstream::Default => RouteStep::Call(Upstream::Fallback),
            Upstream::Fallback => RouteStep::Finish(DispatchOutcome::Failed),
        },
    }
}

/// When the default upstream is let through and succeeds, the route ends
/// there: the fallback is never called and the payment is processed by the
/// default, whatever the fallback would have done.
pub proof fn lemma_default_preferred(fallback: AttemptResult)
    ensures
        route_step(Upstream::Default, AttemptResult::Succeeded) == RouteStep::Finish(
            DispatchOutcome::Processed(Upstream::Default),
        ),
        route_outcome(AttemptResult::Succeeded, fallback) == DispatchOutcome::Processed(
            Upstream::Default,
        ),
{
}

/// Every route ends after at most two calls: at the default, then at the
/// fallback, and only a success is committed as processed, by the upstream
/// that gave it.
pub proof fn lemma_route_ends(default: AttemptResult, fallback: AttemptResult)
    ensures
        route_step(Upstream::Fallback, fallback) is Finish,
        route_outcome(default, fallback) == (if default == AttemptResult::Succeeded {
            DispatchOutcome::Processed(Upstream::Default)
        } else if fallback == AttemptResult::Succeeded {
            DispatchOutcome::Processed(Upstream::Fallback)
        } else {
            DispatchOutcome::Failed
        }),
{
}

impl Upstream {
    /// The upstream called `name`, `"default"` or `"fallback"`.
    pub fn from_name(name: &str) -> (r: Option<Upstream>)
        ensures
            r == (if name@ == "default"@ {
                Some(Upstream::Default)
            } else if name@ == "fallback"@ {
                Some(Upstream::Fallback)
            } else {
                None
            }),
    {
        if same_text(name, "default") {
            Some(Upstream::Default)
        } else if same_text(name, "fallback") {
            Some(Upstream::Fallback)
        } else {
            None
        }
    }
}

/// The two breakers and the settings needed to reach the upstreams.
pub struct PaymentProcessorClient {
    config: Config,
    default_breaker: CircuitBreaker,
    fallback_breaker: CircuitBreaker,
}

impl PaymentProcessorClient {
    /// The breaker in front of `upstream`.
    pub closed spec fn breaker(&self, upstream: Upstream) -> BreakerView {
        match upstream {
            Upstream::Default => self.default_breaker@,
            Upstream::Fallback => self.fallback_breaker@,
        }
    }

    /// The settings it was made with.
    pub closed spec fn settings(&self) -> Config {
        self.config
    }

    pub open spec fn wf(&self) -> bool {
        self.breaker(Upstream::Default).wf() && self.breaker(Upstream::Fallback).wf()
    }

    /// Two fresh breakers with the configured threshold and timeout.
    pub fn new(config: Config) -> (c: PaymentProcessorClient)
        ensures
            c.wf(),
            c.settings() == config,
            c.breaker(Upstream::Default) == BreakerView::fresh(
                config.circuit_breaker_threshold as nat,
                config.circuit_breaker_timeout_secs as nat,
            ),
            c.breaker(Upstream::Fallback) == BreakerView::fresh(
                config.circuit_breaker_threshold as nat,
                config.circuit_breaker_timeout_secs as nat,
            ),
    {
        let threshold = config.circuit_breaker_threshold;
        let timeout = config.circuit_breaker_timeout_secs;
        PaymentProcessorClient {
            config,
            default_breaker: CircuitBreaker::new(threshold, timeout),
            fallback_breaker: CircuitBreaker::new(threshold, timeout),
        }
    }

    /// Asks the breaker of `upstream` whether a call may go out at `now_ms`.
    pub fn can_attempt(&mut self, upstream: Upstream, now_ms: u64) -> (r: bool)
        requires
            old(self).wf(),
        ensures
            final(self).wf(),
            final(self).settings() == old(self).settings(),
            r == old(self).breaker(upstream).permits(now_ms as int),
            final(self).breaker(upstream) == old(self).breaker(upstream).after_probe(now_ms as int),
            forall|u: Upstream| u != upstream ==> final(self).breaker(u) == old(self).breaker(u),
    {
        match upstream {
            Upstream::Default => self.default_breaker.can_execute(now_ms),
            Upstream::Fallback => self.fallback_breaker.can_execute(now_ms),
        }
    }

    /// Tells the breaker of `upstream` how a call that went out ended.
    pub fn record_attempt(&mut self, upstream: Upstream, succeeded: bool, now_ms: u64) -> (r:
        AttemptResult)
        requires
            old(self).wf(),
        ensures
            final(self).wf(),
            final(self).settings() == old(self).settings(),
            r == (if succeeded {
                AttemptResult::Succeeded
            } else {
                AttemptResult::Failed
            }),
            final(self).breaker(upstream) == (if succeeded {
                old(self).breaker(upstream).after_success()
            } else {
                old(self).breaker(upstream).after_failure(now_ms as int)
            }),
            forall|u: Upstream| u != upstream ==> final(self).breaker(u) == old(self).breaker(u),
    {
        let breaker = match upstream {
            Upstream::Default => &mut self.default_breaker,
            Upstream::Fallback => &mut self.fallback_breaker,
        };
        if succeeded {
            breaker.record_success();
            AttemptResult::Succeeded
        } else {
            breaker.record_failure(now_ms);
            AttemptResult::Failed
        }
    }

    /// The state of the breaker of `upstream`.
    pub fn breaker_state(&self, upstream: Upstream) -> (r: CircuitBreakerState)
        ensures
            r == self.breaker(upstream).state,
    {
        match upstream {
            Upstream::Default => self.default_breaker.state(),
            Upstream::Fallback => self.fallback_breaker.state(),
        }
    }

    /// The failures counted by the breaker of `upstream`.
    pub fn breaker_failures(&self, upstream: Upstream) -> (r: u32)
        ensures
            r == self.breaker(upstream).failure_count,
    {
        match upstream {
            Upstream::Default => self.default_breaker.failure_count(),
            Upstream::Fallback => self.fallback_breaker.failure_count(),
        }
    }

    /// The state of the breaker named `processor_type`, if it names one.
    pub fn get_breaker_status(&self, processor_type: &str) -> (r: Option<CircuitBreakerState>)
        ensures
            r == (if processor_type@ == "default"@ {
                Some(self.breaker(Upstream::Default).state)
            } else if processor_type@ == "fallback"@ {
                Some(self.breaker(Upstream::Fallback).state)
            } else {
                None
            }),
    {
        match Upstream::from_name(processor_type) {
            Some(u) => Some(self.breaker_state(u)),
            None => None,
        }
    }

    /// The base URL of `upstream`.
    pub fn processor_url(&self, upstream: Upstream) -> (r: &String)
        ensures
            r@ == match upstream {
                Upstream::Default => self.settings().default_processor_url@,
                Upstream::Fallback => self.settings().fallback_processor_url@,
            },
    {
        match upstream {
            Upstream::Default => &self.config.default_processor_url,
            Upstream::Fallback => &self.config.fallback_processor_url,
        }
    }

    /// The token sent to the upstreams.
    pub fn token(&self) -> (r: &String)
        ensures
            r@ == self.settings().token@,
    {
        &self.config.token
    }
}

} // verus!
