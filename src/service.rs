use vstd::prelude::*;
use crate::breaker::{state_label, BreakerView};
use crate::config::Config;
use crate::ledger::{capped, ledger_totals, Ledger, SummaryResult};
use crate::metrics::{AtomicMetrics, CounterView};
use crate::payment::{fee_of, Payment, PaymentRecord, PaymentRequest, ProcessorTag, RequestView};
use crate::queue::{create_queue, queue_bound, queue_closed, queued_requests, IntakeQueue, RecvOutcome, SendOutcome};
use crate::router::{AttemptResult, DispatchOutcome, PaymentProcessorClient, Upstream};
use crate::text::same_text;

verus! {

/// Why a submission was not accepted.
#[derive(Debug, Clone, Copy, PartialEq, Eq, Structural)]
pub enum ServiceError {
    /// The intake queue has no room left.
    QueueFull,
    /// The gateway cannot take more work (closed, or out of counter range).
    ProcessingError,
}

/// The time window asked for by a summary request. It is taken and not
/// applied: the summary covers the whole ledger.
#[derive(Debug, Clone)]
pub struct SummaryFilters {
    pub from_date: Option<String>,
    pub to_date: Option<String>,
}

/// The record written when a payment is accepted.
pub open spec fn pending_record(amount: u64) -> PaymentRecord {
    PaymentRecord { amount, processor: ProcessorTag::Pending, fee: 0, processed_at: None }
}

/// The record written when dispatch of a payment of `amount` ends with
/// `outcome` at time `now`.
pub open spec fn settled_record(amount: u64, outcome: DispatchOutcome, now: u64) -> PaymentRecord {
    match outcome {
        DispatchOutcome::Processed(Upstream::Default) => PaymentRecord {
            amount,
            processor: ProcessorTag::Default,
            fee: fee_of(amount as int) as u64,
            processed_at: Some(now),
        },
        DispatchOutcome::Processed(Upstream::Fallback) => PaymentRecord {
            amount,
            processor: ProcessorTag::Fallback,
            fee: fee_of(amount as int) as u64,
            processed_at: Some(now),
        },
        DispatchOutcome::Failed => PaymentRecord {
            amount,
            processor: ProcessorTag::Failed,
            fee: 0,
            processed_at: Some(now),
        },
    }
}

/// A payment with id `k` is waiting: in the queue, or taken by a worker and
/// not yet completed.
pub open spec fn awaiting(queued: Seq<RequestView>, in_flight: Seq<RequestView>, k: Seq<char>) -> bool {
    (exists|i: int| 0 <= i < queued.len() && #[trigger] queued[i].id == k) || (exists|i: int|
        0 <= i < in_flight.len() && #[trigger] in_flight[i].id == k)
}

/// The ids whose record is still pending.
pub open spec fn pending_ids(m: Map<Seq<char>, PaymentRecord>) -> Set<Seq<char>> {
    m.dom().filter(|k: Seq<char>| m[k].processor == ProcessorTag::Pending)
}

/// Whether a queue holding `len` requests, out of `capacity`, takes one more.
pub open spec fn admits(len: nat, capacity: nat) -> bool {
    len < capacity
}

/// The gateway's state: ledger, counters, breakers, the intake queue and the
/// requests a worker has taken and not yet completed.
pub struct PaymentService {
    ledger: Ledger,
    client: PaymentProcessorClient,
    queue: IntakeQueue,
    metrics: AtomicMetrics,
    in_flight: Vec<PaymentRequest>,
}

impl PaymentService {
    pub closed spec fn ledger_view(&self) -> Map<Seq<char>, PaymentRecord> {
        self.ledger@
    }

    pub closed spec fn counters(&self) -> CounterView {
        self.metrics@
    }

    pub closed spec fn queued(&self) -> Seq<RequestView> {
        queued_requests(self.queue)
    }

    pub closed spec fn capacity(&self) -> nat {
        queue_bound(self.queue)
    }

    pub closed spec fn is_closed(&self) -> bool {
        queue_closed(self.queue)
    }

    pub closed spec fn in_flight(&self) -> Seq<RequestView> {
        self.in_flight@.map_values(|r: PaymentRequest| r@)
    }

    pub closed spec fn breaker(&self, upstream: Upstream) -> BreakerView {
        self.client.breaker(upstream)
    }

    pub closed spec fn settings(&self) -> Config {
        self.client.settings()
    }

    /// The ledger is finite and each record in it is well formed; every
    /// submission is processed, failed, queued or in flight; every pending
    /// record is waiting in the queue or in flight.
    pub closed spec fn wf(&self) -> bool {
        &&& self.ledger.wf()
        &&& self.client.wf()
        &&& forall|k: Seq<char>| #[trigger] self.ledger@.contains_key(k) ==> self.ledger@[k].wf()
        &&& self.metrics@.submitted == self.metrics@.processed + self.metrics@.failed
            + self.queued().len() + self.in_flight().len()
        &&& forall|k: Seq<char>| #[trigger]
            self.ledger@.contains_key(k) && self.ledger@[k].processor == ProcessorTag::Pending
                ==> awaiting(self.queued(), self.in_flight(), k)
    }

    /// An empty gateway whose queue holds up to `config.queue_buffer_size`
    /// requests.
    pub fn new(config: Config) -> (s: PaymentService)
        requires
            0 < config.queue_buffer_size <= usize::MAX / 8,
        ensures
            s.wf(),
            s.ledger_view() == Map::<Seq<char>, PaymentRecord>::empty(),
            s.counters() == (CounterView { submitted: 0, processed: 0, failed: 0 }),
            s.queued() == Seq::<RequestView>::empty(),
            s.in_flight() == Seq::<RequestView>::empty(),
            s.capacity() == config.queue_buffer_size,
            !s.is_closed(),
            s.settings() == config,
            s.breaker(Upstream::Default) == BreakerView::fresh(
                config.circuit_breaker_threshold as nat,
                config.circuit_breaker_timeout_secs as nat,
            ),
            s.breaker(Upstream::Fallback) == BreakerView::fresh(
                config.circuit_breaker_threshold as nat,
                config.circuit_breaker_timeout_secs as nat,
            ),
    {
        let capacity = config.queue_buffer_size;
        let s = PaymentService {
            ledger: Ledger::new(),
            client: PaymentProcessorClient::new(config),
            queue: create_queue(capacity),
            metrics: AtomicMetrics::new(),
            in_flight: Vec::new(),
        };
        assert(s.in_flight() =~= Seq::<RequestView>::empty());
        s
    }

    /// Accepts a payment: writes its pending record, then queues it. A full
    /// queue answers `QueueFull`, a closed one or exhausted counters
    /// `ProcessingError`; a refused payment leaves everything as it was.
    pub fn submit_payment(&mut self, request: PaymentRequest) -> (r: Result<(), ServiceError>)
        requires
            old(self).wf(),
        ensures
            final(self).wf(),
            final(self).counters().dominates(old(self).counters()),
            final(self).capacity() == old(self).capacity(),
            final(self).is_closed() == old(self).is_closed(),
            final(self).in_flight() == old(self).in_flight(),
            final(self).settings() == old(self).settings(),
            forall|u: Upstream| #[trigger] final(self).breaker(u) == old(self).breaker(u),
            r == (if old(self).counters().submitted == u64::MAX || old(self).is_closed() {
                Err(ServiceError::ProcessingError)
            } else if !admits(old(self).queued().len(), old(self).capacity()) {
                Err(ServiceError::QueueFull)
            } else {
                Ok(())
            }),
            r is Ok ==> {
                &&& final(self).ledger_view() == old(self).ledger_view().insert(
                    request.id@,
                    pending_record(request.amount),
                )
                &&& final(self).queued() == old(self).queued().push(request@)
                &&& final(self).counters() == (CounterView {
                    submitted: old(self).counters().submitted + 1,
                    ..old(self).counters()
                })
            },
            r is Err ==> {
                &&& final(self).ledger_view() == old(self).ledger_view()
                &&& final(self).queued() == old(self).queued()
                &&& final(self).counters() == old(self).counters()
            },
    {
        if self.metrics.get_submitted() == u64::MAX {
            return Err(ServiceError::ProcessingError);
        }
        let ghost old_ledger = self.ledger@;
        let ghost old_queue = self.queued();
        let ghost req = request@;
        let key = request.id.clone();
        let pending = PaymentRecord {
            amount: request.amount,
            processor: ProcessorTag::Pending,
            fee: 0,
            processed_at: None,
        };
        let previous = self.ledger.put(request.id.clone(), pending);
        match self.queue.try_send(request) {
            SendOutcome::Accepted => {
                self.metrics.increment_submitted();
                proof {
                    let q = self.queued();
                    assert(q == old_queue.push(req));
                    assert(q[q.len() - 1].id == req.id);
                    assert forall|k: Seq<char>| #[trigger]
                        self.ledger@.contains_key(k) && self.ledger@[k].processor
                            == ProcessorTag::Pending implies awaiting(
                        self.queued(),
                        self.in_flight(),
                        k,
                    ) by {
                        if k != req.id {
                            assert(old_ledger.contains_key(k));
                            if exists|i: int| 0 <= i < old_queue.len() && #[trigger] old_queue[i].id == k {
                                let i = choose|i: int|
                                    0 <= i < old_queue.len() && #[trigger] old_queue[i].id == k;
                                assert(q[i].id == k);
                            }
                        } else {
                            assert(q[q.len() - 1].id == k);
                        }
                    }
                    assert forall|k: Seq<char>| #[trigger] self.ledger@.contains_key(k) implies self.ledger@[k].wf() by {
                        if k != req.id {
                            assert(old_ledger.contains_key(k));
                        }
                    }
                }
                Ok(())
            },
            outcome => {
                match previous {
                    Some(record) => {
                        self.ledger.put(key, record);
                    },
                    None => {
                        self.ledger.remove(key.as_str());
                    },
                }
                assert(self.ledger@ =~= old_ledger);
                if outcome == SendOutcome::Full {
                    Err(ServiceError::QueueFull)
                } else {
                    Err(ServiceError::ProcessingError)
                }
            },
        }
    }

    /// Hands the oldest queued request to a worker and keeps it as in flight
    /// until it is completed; `Empty` or `Closed` when nothing is queued.
    pub fn take_next(&mut self) -> (r: RecvOutcome)
        requires
            old(self).wf(),
        ensures
            final(self).wf(),
            final(self).counters() == old(self).counters(),
            final(self).ledger_view() == old(self).ledger_view(),
            final(self).capacity() == old(self).capacity(),
            final(self).is_closed() == old(self).is_closed(),
            final(self).settings() == old(self).settings(),
            forall|u: Upstream| #[trigger] final(self).breaker(u) == old(self).breaker(u),
            old(self).queued().len() > 0 ==> {
                &&& r is Item
                &&& r->Item_0@ == old(self).queued()[0]
                &&& final(self).queued() == old(self).queued().drop_first()
                &&& final(self).in_flight() == old(self).in_flight().push(old(self).queued()[0])
            },
            old(self).queued().len() == 0 ==> {
                &&& final(self).queued() == old(self).queued()
                &&& final(self).in_flight() == old(self).in_flight()
                &&& r == (if old(self).is_closed() {
                    RecvOutcome::Closed
                } else {
                    RecvOutcome::Empty
                })
            },
    {
        let ghost old_queue = self.queued();
        let ghost old_flight = self.in_flight();
        match self.queue.try_recv() {
            RecvOutcome::Item(request) => {
                self.in_flight.push(request.copied());
                proof {
                    assert(self.in_flight() =~= old_flight.push(old_queue[0]));
                    let q = self.queued();
                    let f = self.in_flight();
                    assert forall|k: Seq<char>| #[trigger]
                        self.ledger@.contains_key(k) && self.ledger@[k].processor
                            == ProcessorTag::Pending implies awaiting(q, f, k) by {
                        assert(awaiting(old_queue, old_flight, k));
                        if exists|i: int| 0 <= i < old_queue.len() && #[trigger] old_queue[i].id == k {
                            let i = choose|i: int|
                                0 <= i < old_queue.len() && #[trigger] old_queue[i].id == k;
                            if i == 0 {
                                assert(f[f.len() - 1].id == k);
                            } else {
                                assert(q[i - 1].id == k);
                            }
                        } else {
                            let i = choose|i: int|
                                0 <= i < old_flight.len() && #[trigger] old_flight[i].id == k;
                            assert(f[i].id == k);
                        }
                    }
                }
                RecvOutcome::Item(request)
            },
            other => other,
        }
    }

    /// Completes the in-flight payment `id` with `outcome` at `now_ms`: its
    /// record becomes settled and the processed or failed counter goes up.
    /// Returns false, changing nothing, when no payment `id` is in flight.
    pub fn complete_payment(&mut self, id: &str, outcome: DispatchOutcome, now_ms: u64) -> (r: bool)
        requires
            old(self).wf(),
        ensures
            final(self).wf(),
            final(self).counters().dominates(old(self).counters()),
            final(self).queued() == old(self).queued(),
            final(self).capacity() == old(self).capacity(),
            final(self).is_closed() == old(self).is_closed(),
            final(self).settings() == old(self).settings(),
            forall|u: Upstream| #[trigger] final(self).breaker(u) == old(self).breaker(u),
            r == exists|i: int|
                0 <= i < old(self).in_flight().len() && #[trigger] old(self).in_flight()[i].id == id@,
            !r ==> {
                &&& final(self).ledger_view() == old(self).ledger_view()
                &&& final(self).in_flight() == old(self).in_flight()
                &&& final(self).counters() == old(self).counters()
            },
            r ==> exists|j: int|
                {
                    &&& 0 <= j < old(self).in_flight().len()
                    &&& #[trigger] old(self).in_flight()[j].id == id@
                    &&& forall|i: int| 0 <= i < j ==> #[trigger] old(self).in_flight()[i].id != id@
                    &&& final(self).in_flight() == old(self).in_flight().remove(j)
                    &&& final(self).ledger_view() == old(self).ledger_view().insert(
                        id@,
                        settled_record(old(self).in_flight()[j].amount, outcome, now_ms),
                    )
                    &&& final(self).counters() == (match outcome {
                        DispatchOutcome::Processed(_) => CounterView {
                            processed: old(self).counters().processed + 1,
                            ..old(self).counters()
                        },
                        DispatchOutcome::Failed => CounterView {
                            failed: old(self).counters().failed + 1,
                            ..old(self).counters()
                        },
                    })
                },
    {
        let ghost old_flight = self.in_flight();
        let ghost old_ledger = self.ledger@;
        let n = self.in_flight.len();
        let mut j: usize = 0;
        let mut found: bool = false;
        while j < n && !found
            invariant
                j <= n,
                n == self.in_flight@.len(),
                self.in_flight() == old_flight,
                forall|i: int| 0 <= i < j ==> #[trigger] old_flight[i].id != id@,
                found ==> j < n && old_flight[j as int].id == id@,
            decreases n - j + if found {
                0int
            } else {
                1int
            },
        {
            if same_text(self.in_flight[j].id.as_str(), id) {
                found = true;
            } else {
                j = j + 1;
            }
        }
        if !found {
            return false;
        }
        let request = self.in_flight.remove(j);
        assert(self.in_flight() =~= old_flight.remove(j as int));
        let record = match outcome {
            DispatchOutcome::Processed(Upstream::Default) => PaymentRecord {
                amount: request.amount,
                processor: ProcessorTag::Default,
                fee: crate::payment::processing_fee(request.amount),
                processed_at: Some(now_ms),
            },
            DispatchOutcome::Processed(Upstream::Fallback) => PaymentRecord {
                amount: request.amount,
                processor: ProcessorTag::Fallback,
                fee: crate::payment::processing_fee(request.amount),
                processed_at: Some(now_ms),
            },
            DispatchOutcome::Failed => PaymentRecord {
                amount: request.amount,
                processor: ProcessorTag::Failed,
                fee: 0,
                processed_at: Some(now_ms),
            },
        };
        self.ledger.put(String::from_str(id), record);
        proof {
            self.metrics.lemma_bounds();
        }
        match outcome {
            DispatchOutcome::Processed(_) => self.metrics.increment_processed(),
            DispatchOutcome::Failed => self.metrics.increment_failed(),
        }
        proof {
            let q = self.queued();
            let f = self.in_flight();
            assert forall|k: Seq<char>| #[trigger]
                self.ledger@.contains_key(k) && self.ledger@[k].processor
                    == ProcessorTag::Pending implies awaiting(q, f, k) by {
                assert(k != id@);
                assert(old_ledger.contains_key(k));
                assert(awaiting(q, old_flight, k));
                if !(exists|i: int| 0 <= i < q.len() && #[trigger] q[i].id == k) {
                    let i = choose|i: int| 0 <= i < old_flight.len() && #[trigger] old_flight[i].id == k;
                    if i < j {
                        assert(f[i].id == k);
                    } else {
                        assert(i != j);
                        assert(f[i - 1].id == k);
                    }
                }
            }
            assert forall|k: Seq<char>| #[trigger] self.ledger@.contains_key(k) implies self.ledger@[k].wf() by {
                if k != id@ {
                    assert(old_ledger.contains_key(k));
                }
            }
        }
        true
    }

    /// Asks the breaker of `upstream` whether a call may go out at `now_ms`.
    pub fn can_attempt(&mut self, upstream: Upstream, now_ms: u64) -> (r: bool)
        requires
            old(self).wf(),
        ensures
            final(self).wf(),
            r == old(self).breaker(upstream).permits(now_ms as int),
            final(self).breaker(upstream) == old(self).breaker(upstream).after_probe(now_ms as int),
            forall|u: Upstream| u != upstream ==> #[trigger] final(self).breaker(u) == old(self).breaker(u),
            final(self).counters() == old(self).counters(),
            final(self).ledger_view() == old(self).ledger_view(),
            final(self).queued() == old(self).queued(),
            final(self).in_flight() == old(self).in_flight(),
            final(self).capacity() == old(self).capacity(),
            final(self).is_closed() == old(self).is_closed(),
            final(self).settings() == old(self).settings(),
    {
        self.client.can_attempt(upstream, now_ms)
    }

    /// Tells the breaker of `upstream` how a call ended at `now_ms`.
    pub fn record_attempt(&mut self, upstream: Upstream, succeeded: bool, now_ms: u64) -> (r:
        AttemptResult)
        requires
            old(self).wf(),
        ensures
            final(self).wf(),
            r == (if succeeded {
                AttemptResult::Succeeded
            } else {
                AttemptResult::Failed
            }),
            final(self).breaker(upstream) == (if succeeded {
                old(self).breaker(upstream).after_success()
            } else {
                old(self).breaker(upstream).after_failure(now_ms as int)
            }),
            forall|u: Upstream| u != upstream ==> #[trigger] final(self).breaker(u) == old(self).breaker(u),
            final(self).counters() == old(self).counters(),
            final(self).ledger_view() == old(self).ledger_view(),
            final(self).queued() == old(self).queued(),
            final(self).in_flight() == old(self).in_flight(),
            final(self).capacity() == old(self).capacity(),
            final(self).is_closed() == old(self).is_closed(),
            final(self).settings() == old(self).settings(),
    {
        self.client.record_attempt(upstream, succeeded, now_ms)
    }

    /// Stops accepting payments; those queued can still be taken.
    pub fn close_intake(&mut self)
        requires
            old(self).wf(),
        ensures
            final(self).wf(),
            final(self).is_closed(),
            final(self).counters() == old(self).counters(),
            final(self).ledger_view() == old(self).ledger_view(),
            final(self).queued() == old(self).queued(),
            final(self).in_flight() == old(self).in_flight(),
            final(self).capacity() == old(self).capacity(),
            final(self).settings() == old(self).settings(),
            forall|u: Upstream| #[trigger] final(self).breaker(u) == old(self).breaker(u),
    {
        self.queue.close();
    }

    /// The summary over the whole ledger; the filters are not applied.
    pub fn get_summary(&self, filters: SummaryFilters) -> (r: SummaryResult)
        requires
            self.wf(),
        ensures
            ({
                let t = ledger_totals(self.ledger_view());
                &&& r.total_amount_cents == capped(t.settled_amount)
                &&& r.total_fee_cents == capped(t.settled_fee)
                &&& r.count == t.count
                &&& r.count_processed == t.processed
                &&& r.count_failed == t.failed
            }),
    {
        self.ledger.summary()
    }

    /// The payment stored under `id`, if any.
    pub fn get_payment(&self, id: &str) -> (r: Option<Payment>)
        ensures
            r is Some <==> self.ledger_view().contains_key(id@),
            r is Some ==> ({
                let p = r->0;
                let rec = self.ledger_view()[id@];
                &&& p.id@ == id@
                &&& p.amount == rec.amount
                &&& p.processor == rec.processor
                &&& p.fee == rec.fee
                &&& p.processed_at == rec.processed_at
            }),
    {
        self.ledger.get_payment(id)
    }

    /// The number of records in the ledger.
    pub fn get_total_payments(&self) -> (r: u64)
        ensures
            r == self.ledger_view().dom().len(),
    {
        self.ledger.len() as u64
    }

    /// The amounts of all records, pending ones included; stops at `u64::MAX`.
    pub fn get_total_amount(&self) -> (r: u64)
        requires
            self.wf(),
        ensures
            r == capped(ledger_totals(self.ledger_view()).amount),
    {
        self.ledger.sums().total_amount
    }

    /// The fees of all records; stops at `u64::MAX`.
    pub fn get_total_fees(&self) -> (r: u64)
        requires
            self.wf(),
        ensures
            r == capped(ledger_totals(self.ledger_view()).fee),
    {
        self.ledger.sums().total_fees
    }

    /// The state of the breaker named `processor`, or `"unknown"`.
    pub fn get_circuit_breaker_status(&self, processor: &str) -> (r: String)
        ensures
            r@ == (if processor@ == "default"@ {
                state_label(self.breaker(Upstream::Default).state)
            } else if processor@ == "fallback"@ {
                state_label(self.breaker(Upstream::Fallback).state)
            } else {
                "unknown"@
            }),
    {
        match self.client.get_breaker_status(processor) {
            Some(state) => String::from_str(state.label()),
            None => String::from_str("unknown"),
        }
    }

    pub fn get_submitted(&self) -> (r: u64)
        ensures
            r == self.counters().submitted,
    {
        self.metrics.get_submitted()
    }

    pub fn get_processed(&self) -> (r: u64)
        ensures
            r == self.counters().processed,
    {
        self.metrics.get_processed()
    }

    pub fn get_failed(&self) -> (r: u64)
        ensures
            r == self.counters().failed,
    {
        self.metrics.get_failed()
    }

    /// The number of queued requests.
    pub fn queued_len(&self) -> (r: usize)
        ensures
            r == self.queued().len(),
    {
        self.queue.len()
    }

    /// The number of requests taken and not yet completed.
    pub fn in_flight_len(&self) -> (r: usize)
        ensures
            r == self.in_flight().len(),
    {
        self.in_flight.len()
    }

    /// The breakers and upstream settings.
    pub fn processor_client(&self) -> (r: &PaymentProcessorClient)
        ensures
            forall|u: Upstream| #[trigger] r.breaker(u) == self.breaker(u),
            r.settings() == self.settings(),
    {
        &self.client
    }

    /// At rest, with nothing queued and nothing in flight, every submitted
    /// payment has been processed or has failed, and no record is pending:
    /// `submitted == processed + failed + pending records`, the last being 0.
    pub proof fn lemma_counters_conserved(&self)
        requires
            self.wf(),
            self.queued().len() == 0,
            self.in_flight().len() == 0,
        ensures
            pending_ids(self.ledger_view()) == Set::<Seq<char>>::empty(),
            self.counters().submitted == self.counters().processed + self.counters().failed
                + pending_ids(self.ledger_view()).len(),
    {
        let m = self.ledger_view();
        assert forall|k: Seq<char>| !#[trigger] pending_ids(m).contains(k) by {
            if m.contains_key(k) && m[k].processor == ProcessorTag::Pending {
                assert(awaiting(self.queued(), self.in_flight(), k));
            }
        }
        assert(pending_ids(m) =~= Set::<Seq<char>>::empty());
    }

    /// Every processed record, by either upstream, carries the fee
    /// `amount / 20`; pending and failed ones carry none.
    pub proof fn lemma_fee_law(&self, id: Seq<char>)
        requires
            self.wf(),
            self.ledger_view().contains_key(id),
        ensures
            self.ledger_view()[id].processor.is_processed() ==> self.ledger_view()[id].fee
                == self.ledger_view()[id].amount / 20,
            !self.ledger_view()[id].processor.is_processed() ==> self.ledger_view()[id].fee == 0,
    {
    }
}

/// How many of `n` submissions are refused with `QueueFull` when the queue
/// starts with `len` requests out of `capacity` and nothing is taken out
/// meanwhile: each accepted one takes a place.
pub open spec fn refusals(len: nat, capacity: nat, n: nat) -> nat
    decreases n,
{
    if n == 0 {
        0
    } else if admits(len, capacity) {
        refusals(len + 1, capacity, (n - 1) as nat)
    } else {
        1 + refusals(len, capacity, (n - 1) as nat)
    }
}

proof fn lemma_refusals_when_full(len: nat, capacity: nat, n: nat)
    requires
        len >= capacity,
    ensures
        refusals(len, capacity, n) == n,
    decreases n,
{
    if n > 0 {
        lemma_refusals_when_full(len, capacity, (n - 1) as nat);
    }
}

proof fn lemma_refusals_filling(len: nat, capacity: nat, extra: nat)
    requires
        len <= capacity,
    ensures
        refusals(len, capacity, (capacity - len + extra) as nat) == extra,
    decreases capacity - len,
{
    if len < capacity {
        lemma_refusals_filling(len + 1, capacity, extra);
    } else {
        lemma_refusals_when_full(len, capacity, extra);
    }
}

/// With the worker paused, `capacity + 1` submissions into an empty queue of
/// `capacity` places meet exactly one refusal, the last one.
pub proof fn lemma_backpressure(capacity: nat)
    ensures
        refusals(0, capacity, capacity + 1) == 1,
        forall|k: nat| k < capacity ==> #[trigger] admits(k, capacity),
        !admits(capacity, capacity),
{
    lemma_refusals_filling(0, capacity, 1);
}

} // verus!
