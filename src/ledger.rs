use vstd::prelude::*;
use dashmap::DashMap;
use crate::payment::{Payment, PaymentRecord, ProcessorTag};

verus! {

#[verifier::external_type_specification]
#[verifier::external_body]
#[verifier::reject_recursive_types(K)]
#[verifier::reject_recursive_types(V)]
#[verifier::reject_recursive_types(S)]
pub struct ExDashMap<K, V, S>(DashMap<K, V, S>);

/// Concurrent map from payment id to record.
pub type EntryMap = DashMap<String, PaymentRecord>;

/// The entries of a concurrent map from payment id to record.
pub uninterp spec fn ledger_entries(m: EntryMap) -> Map<Seq<char>, PaymentRecord>;

/// Relies on `DashMap::new`: a map with no entries.
#[verifier::external_body]
fn entries_new() -> (r: EntryMap)
    ensures
        ledger_entries(r).dom() == Set::<Seq<char>>::empty(),
{
    DashMap::new()
}

/// Relies on `DashMap::insert`: afterwards the key maps to the value, and the
/// value it had before, if any, is returned.
#[verifier::external_body]
fn entries_insert(m: &mut EntryMap, key: String, value: PaymentRecord) -> (r:
    Option<PaymentRecord>)
    ensures
        ledger_entries(*final(m)) == ledger_entries(*old(m)).insert(key@, value),
        r == (if ledger_entries(*old(m)).contains_key(key@) {
            Some(ledger_entries(*old(m))[key@])
        } else {
            None
        }),
{
    m.insert(key, value)
}

/// Relies on `DashMap::remove`: afterwards the key has no entry, and the value
/// it had, if any, is returned.
#[verifier::external_body]
fn entries_remove(m: &mut EntryMap, key: &str) -> (r: Option<PaymentRecord>)
    ensures
        ledger_entries(*final(m)) == ledger_entries(*old(m)).remove(key@),
        r == (if ledger_entries(*old(m)).contains_key(key@) {
            Some(ledger_entries(*old(m))[key@])
        } else {
            None
        }),
{
    m.remove(key).map(|entry| entry.1)
}

/// Relies on `DashMap::get`: the value under the key, if any.
#[verifier::external_body]
fn entries_get(m: &EntryMap, key: &str) -> (r: Option<PaymentRecord>)
    ensures
        r == (if ledger_entries(*m).contains_key(key@) {
            Some(ledger_entries(*m)[key@])
        } else {
            None
        }),
{
    m.get(key).map(|entry| *entry.value())
}

/// Relies on `DashMap::len`: the number of entries.
#[verifier::external_body]
fn entries_len(m: &EntryMap) -> (r: usize)
    ensures
        r == ledger_entries(*m).dom().len(),
{
    m.len()
}

/// Relies on `DashMap::iter`: every entry once, in no particular order.
#[verifier::external_body]
fn entries_list(m: &EntryMap) -> (r: Vec<(String, PaymentRecord)>)
    ensures
        r@.len() == ledger_entries(*m).dom().len(),
        forall|i: int|
            0 <= i < r@.len() ==> #[trigger] ledger_entries(*m).contains_key(r@[i].0@)
                && ledger_entries(*m)[r@[i].0@] == r@[i].1,
        forall|i: int, j: int|
            0 <= i < j < r@.len() ==> #[trigger] r@[i].0@ != #[trigger] r@[j].0@,
{
    m.iter().map(|entry| (entry.key().clone(), *entry.value())).collect()
}

/// Sums over a set of records, in exact integers.
pub ghost struct LedgerTotals {
    /// Amounts of settled records (processed or failed).
    pub settled_amount: int,
    /// Fees of settled records.
    pub settled_fee: int,
    /// All records.
    pub count: int,
    /// Records processed by an upstream.
    pub processed: int,
    /// Records given up.
    pub failed: int,
    /// Amounts of all records, pending ones included.
    pub amount: int,
    /// Fees of all records.
    pub fee: int,
}

pub open spec fn zero_totals() -> LedgerTotals {
    LedgerTotals {
        settled_amount: 0,
        settled_fee: 0,
        count: 0,
        processed: 0,
        failed: 0,
        amount: 0,
        fee: 0,
    }
}

pub open spec fn add_totals(a: LedgerTotals, b: LedgerTotals) -> LedgerTotals {
    LedgerTotals {
        settled_amount: a.settled_amount + b.settled_amount,
        settled_fee: a.settled_fee + b.settled_fee,
        count: a.count + b.count,
        processed: a.processed + b.processed,
        failed: a.failed + b.failed,
        amount: a.amount + b.amount,
        fee: a.fee + b.fee,
    }
}

/// What one record adds to the totals.
pub open spec fn record_totals(r: PaymentRecord) -> LedgerTotals {
    let settled = r.processor != ProcessorTag::Pending;
    LedgerTotals {
        settled_amount: if settled {
            r.amount as int
        } else {
            0
        },
        settled_fee: if settled {
            r.fee as int
        } else {
            0
        },
        count: 1,
        processed: if r.processor.is_processed() {
            1
        } else {
            0
        },
        failed: if r.processor == ProcessorTag::Failed {
            1
        } else {
            0
        },
        amount: r.amount as int,
        fee: r.fee as int,
    }
}

/// The totals of all records of a finite ledger.
pub open spec fn ledger_totals(m: Map<Seq<char>, PaymentRecord>) -> LedgerTotals
    decreases m.dom().len(),
    via ledger_totals_decreases
{
    if m.dom().finite() && m.dom().len() > 0 {
        let k = choose|k: Seq<char>| m.dom().contains(k);
        add_totals(record_totals(m[k]), ledger_totals(m.remove(k)))
    } else {
        zero_totals()
    }
}

#[via_fn]
proof fn ledger_totals_decreases(m: Map<Seq<char>, PaymentRecord>) {
    if m.dom().finite() && m.dom().len() > 0 {
        lemma_nonempty_has_key(m);
        let k = choose|k: Seq<char>| m.dom().contains(k);
        assert(m.remove(k).dom() =~= m.dom().remove(k));
    }
}

proof fn lemma_nonempty_has_key(m: Map<Seq<char>, PaymentRecord>)
    requires
        m.dom().len() > 0,
    ensures
        exists|k: Seq<char>| m.dom().contains(k),
{
    if !(exists|k: Seq<char>| m.dom().contains(k)) {
        assert(m.dom() =~= Set::<Seq<char>>::empty());
    }
}

/// The totals do not depend on which record is taken out first.
pub proof fn lemma_totals_remove(m: Map<Seq<char>, PaymentRecord>, k: Seq<char>)
    requires
        m.dom().finite(),
        m.dom().contains(k),
    ensures
        ledger_totals(m) == add_totals(record_totals(m[k]), ledger_totals(m.remove(k))),
    decreases m.dom().len(),
{
    assert(m.remove(k).dom() =~= m.dom().remove(k));
    let j = choose|j: Seq<char>| m.dom().contains(j);
    if j != k {
        lemma_totals_remove(m.remove(j), k);
        lemma_totals_remove(m.remove(k), j);
        assert(m.remove(j).remove(k) =~= m.remove(k).remove(j));
    } else {
        assert(m.remove(j) =~= m.remove(k));
    }
}

/// The largest value a `u64` sum reaches when it stops at `u64::MAX`.
pub open spec fn capped(x: int) -> int {
    if x < u64::MAX {
        x
    } else {
        u64::MAX as int
    }
}

/// Aggregate over the ledger. The amounts and fees are those of settled
/// records; `count` includes pending ones.
#[derive(Debug, Clone, Copy, PartialEq, Eq, Structural)]
pub struct SummaryResult {
    pub total_amount_cents: u64,
    pub total_fee_cents: u64,
    pub count: u64,
    pub count_processed: u64,
    pub count_failed: u64,
}

/// Sums of all records, amounts and fees of pending ones included.
#[derive(Debug, Clone, Copy, PartialEq, Eq, Structural)]
pub struct LedgerSums {
    pub total_amount: u64,
    pub total_fees: u64,
}

/// The in-memory map from payment id to record; a later write under an id
/// replaces the earlier one.
pub struct Ledger {
    entries: EntryMap,
}

impl View for Ledger {
    type V = Map<Seq<char>, PaymentRecord>;

    closed spec fn view(&self) -> Map<Seq<char>, PaymentRecord> {
        ledger_entries(self.entries)
    }
}

impl Ledger {
    pub open spec fn wf(&self) -> bool {
        self@.dom().finite()
    }

    /// An empty ledger.
    pub fn new() -> (l: Ledger)
        ensures
            l@ == Map::<Seq<char>, PaymentRecord>::empty(),
            l.wf(),
    {
        let l = Ledger { entries: entries_new() };
        assert(l@ =~= Map::<Seq<char>, PaymentRecord>::empty());
        l
    }

    /// Stores `record` under `id`, replacing what was there; returns that.
    pub fn put(&mut self, id: String, record: PaymentRecord) -> (r: Option<PaymentRecord>)
        requires
            old(self).wf(),
        ensures
            final(self)@ == old(self)@.insert(id@, record),
            final(self).wf(),
            r == (if old(self)@.contains_key(id@) {
                Some(old(self)@[id@])
            } else {
                None
            }),
    {
        entries_insert(&mut self.entries, id, record)
    }

    /// Drops the record under `id`, if any, and returns it.
    pub fn remove(&mut self, id: &str) -> (r: Option<PaymentRecord>)
        requires
            old(self).wf(),
        ensures
            final(self)@ == old(self)@.remove(id@),
            final(self).wf(),
            r == (if old(self)@.contains_key(id@) {
                Some(old(self)@[id@])
            } else {
                None
            }),
    {
        entries_remove(&mut self.entries, id)
    }

    /// The record under `id`, if any.
    pub fn get(&self, id: &str) -> (r: Option<PaymentRecord>)
        ensures
            r == (if self@.contains_key(id@) {
                Some(self@[id@])
            } else {
                None
            }),
    {
        entries_get(&self.entries, id)
    }

    /// The number of records.
    pub fn len(&self) -> (r: usize)
        ensures
            r == self@.dom().len(),
    {
        entries_len(&self.entries)
    }

    /// The payment stored under `id`, if any.
    pub fn get_payment(&self, id: &str) -> (r: Option<Payment>)
        ensures
            r is Some <==> self@.contains_key(id@),
            r is Some ==> ({
                let p = r->0;
                let rec = self@[id@];
                &&& p.id@ == id@
                &&& p.amount == rec.amount
                &&& p.processor == rec.processor
                &&& p.fee == rec.fee
                &&& p.processed_at == rec.processed_at
            }),
    {
        match entries_get(&self.entries, id) {
            Some(rec) => Some(
                Payment {
                    id: String::from_str(id),
                    amount: rec.amount,
                    processor: rec.processor,
                    fee: rec.fee,
                    processed_at: rec.processed_at,
                },
            ),
            None => None,
        }
    }

    /// Walks every record once and adds it up; sums stop at `u64::MAX`.
    fn totals(&self) -> (r: (SummaryResult, LedgerSums))
        requires
            self.wf(),
        ensures
            ({
                let t = ledger_totals(self@);
                &&& r.0.total_amount_cents == capped(t.settled_amount)
                &&& r.0.total_fee_cents == capped(t.settled_fee)
                &&& r.0.count == t.count
                &&& r.0.count_processed == t.processed
                &&& r.0.count_failed == t.failed
                &&& r.1.total_amount == capped(t.amount)
                &&& r.1.total_fees == capped(t.fee)
            }),
    {
        let list = entries_list(&self.entries);
        let ghost m = self@;
        let ghost mut rest = m;
        let ghost mut done = zero_totals();
        let mut settled_amount: u64 = 0;
        let mut settled_fee: u64 = 0;
        let mut count: u64 = 0;
        let mut processed: u64 = 0;
        let mut failed: u64 = 0;
        let mut amount: u64 = 0;
        let mut fee: u64 = 0;
        let mut i: usize = 0;
        while i < list.len()
            invariant
                0 <= i <= list@.len(),
                list@.len() == m.dom().len(),
                m.dom().finite(),
                rest.dom().finite(),
                rest.dom().len() == list@.len() - i,
                forall|j: int|
                    i <= j < list@.len() ==> rest.contains_key(#[trigger] list@[j].0@) && rest[list@[j].0@]
                        == list@[j].1,
                forall|a: int, b: int|
                    0 <= a < b < list@.len() ==> #[trigger] list@[a].0@ != #[trigger] list@[b].0@,
                add_totals(done, ledger_totals(rest)) == ledger_totals(m),
                done.count == i,
                0 <= done.processed,
                0 <= done.failed,
                done.processed + done.failed <= done.count,
                0 <= done.settled_amount,
                0 <= done.settled_fee,
                0 <= done.amount,
                0 <= done.fee,
                settled_amount == capped(done.settled_amount),
                settled_fee == capped(done.settled_fee),
                amount == capped(done.amount),
                fee == capped(done.fee),
                count == done.count,
                processed == done.processed,
                failed == done.failed,
            decreases list@.len() - i,
        {
            let key = &list[i].0;
            let rec = list[i].1;
            proof {
                lemma_totals_remove(rest, key@);
                let old_rest = rest;
                done = add_totals(done, record_totals(rec));
                rest = rest.remove(key@);
                assert forall|j: int| i + 1 <= j < list@.len() implies rest.contains_key(
                    #[trigger] list@[j].0@,
                ) && rest[list@[j].0@] == list@[j].1 by {
                    assert(list@[i as int].0@ != list@[j].0@);
                    assert(old_rest.contains_key(list@[j].0@));
                }
            }
            count = count + 1;
            amount = amount.saturating_add(rec.amount);
            fee = fee.saturating_add(rec.fee);
            if rec.processor != ProcessorTag::Pending {
                settled_amount = settled_amount.saturating_add(rec.amount);
                settled_fee = settled_fee.saturating_add(rec.fee);
            }
            if rec.processor == ProcessorTag::Failed {
                failed = failed + 1;
            } else if rec.processor != ProcessorTag::Pending {
                processed = processed + 1;
            }
            i = i + 1;
        }
        proof {
            assert(rest.dom() =~= Set::<Seq<char>>::empty());
        }
        (
            SummaryResult {
                total_amount_cents: settled_amount,
                total_fee_cents: settled_fee,
                count,
                count_processed: processed,
                count_failed: failed,
            },
            LedgerSums { total_amount: amount, total_fees: fee },
        )
    }

    /// The summary over all records.
    pub fn summary(&self) -> (r: SummaryResult)
        requires
            self.wf(),
        ensures
            ({
                let t = ledger_totals(self@);
                &&& r.total_amount_cents == capped(t.settled_amount)
                &&& r.total_fee_cents == capped(t.settled_fee)
                &&& r.count == t.count
                &&& r.count_processed == t.processed
                &&& r.count_failed == t.failed
            }),
    {
        self.totals().0
    }

    /// Amounts and fees of all records, pending ones included.
    pub fn sums(&self) -> (r: LedgerSums)
        requires
            self.wf(),
        ensures
            r.total_amount == capped(ledger_totals(self@).amount),
            r.total_fees == capped(ledger_totals(self@).fee),
    {
        self.totals().1
    }
}

} // verus!
