use vstd::prelude::*;

verus! {

/// The three counters as integers.
pub ghost struct CounterView {
    pub submitted: int,
    pub processed: int,
    pub failed: int,
}

impl CounterView {
    /// No counter is below its value in `earlier`.
    pub open spec fn dominates(self, earlier: CounterView) -> bool {
        &&& earlier.submitted <= self.submitted
        &&& earlier.processed <= self.processed
        &&& earlier.failed <= self.failed
    }
}

/// One step of a counter: up by one, stopping at `u64::MAX`.
pub open spec fn bumped(x: int) -> int {
    if x < u64::MAX {
        x + 1
    } else {
        x
    }
}

/// Counters of submitted, processed and failed payments. They only go up;
/// changes take `&mut self`, so the owner decides how access is shared.
pub struct AtomicMetrics {
    submitted: u64,
    processed: u64,
    failed: u64,
}

impl View for AtomicMetrics {
    type V = CounterView;

    closed spec fn view(&self) -> CounterView {
        CounterView {
            submitted: self.submitted as int,
            processed: self.processed as int,
            failed: self.failed as int,
        }
    }
}

impl AtomicMetrics {
    /// Bounds that every value of the type meets.
    pub proof fn lemma_bounds(&self)
        ensures
            0 <= self@.submitted <= u64::MAX,
            0 <= self@.processed <= u64::MAX,
            0 <= self@.failed <= u64::MAX,
    {
    }

    /// All three counters at zero.
    pub fn new() -> (m: AtomicMetrics)
        ensures
            m@ == (CounterView { submitted: 0, processed: 0, failed: 0 }),
    {
        AtomicMetrics { submitted: 0, processed: 0, failed: 0 }
    }

    pub fn increment_submitted(&mut self)
        ensures
            final(self)@ == (CounterView { submitted: bumped(old(self)@.submitted), ..old(self)@ }),
            final(self)@.dominates(old(self)@),
    {
        self.submitted = self.submitted.saturating_add(1);
    }

    pub fn increment_processed(&mut self)
        ensures
            final(self)@ == (CounterView { processed: bumped(old(self)@.processed), ..old(self)@ }),
            final(self)@.dominates(old(self)@),
    {
        self.processed = self.processed.saturating_add(1);
    }

    pub fn increment_failed(&mut self)
        ensures
            final(self)@ == (CounterView { failed: bumped(old(self)@.failed), ..old(self)@ }),
            final(self)@.dominates(old(self)@),
    {
        self.failed = self.failed.saturating_add(1);
    }

    pub fn get_submitted(&self) -> (r: u64)
        ensures
            r == self@.submitted,
    {
        self.submitted
    }

    pub fn get_processed(&self) -> (r: u64)
        ensures
            r == self@.processed,
    {
        self.processed
    }

    pub fn get_failed(&self) -> (r: u64)
        ensures
            r == self@.failed,
    {
        self.failed
    }
}

} // verus!
