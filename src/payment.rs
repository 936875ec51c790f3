use vstd::prelude::*;

verus! {

/// Where a payment stands: waiting in the queue, or settled by one upstream,
/// or given up.
#[derive(Debug, Clone, Copy, PartialEq, Eq, Structural)]
pub enum ProcessorTag {
    Pending,
    Default,
    Fallback,
    Failed,
}

impl ProcessorTag {
    /// Settled by one of the two upstreams.
    pub open spec fn is_processed(self) -> bool {
        self == ProcessorTag::Default || self == ProcessorTag::Fallback
    }
}

/// A payment as submitted by a client; `amount` is in cents.
#[derive(Debug, Clone)]
pub struct PaymentRequest {
    pub id: String,
    pub amount: u64,
}

/// A request as the contracts see it.
pub ghost struct RequestView {
    pub id: Seq<char>,
    pub amount: u64,
}

impl View for PaymentRequest {
    type V = RequestView;

    open spec fn view(&self) -> RequestView {
        RequestView { id: self.id@, amount: self.amount }
    }
}

impl PaymentRequest {
    /// A copy of the request.
    pub fn copied(&self) -> (r: PaymentRequest)
        ensures
            r@ == self@,
    {
        PaymentRequest { id: self.id.clone(), amount: self.amount }
    }
}

/// What the ledger keeps under a payment's id. `processed_at` is in
/// milliseconds since the epoch.
#[derive(Debug, Clone, Copy, PartialEq, Eq, Structural)]
pub struct PaymentRecord {
    pub amount: u64,
    pub processor: ProcessorTag,
    pub fee: u64,
    pub processed_at: Option<u64>,
}

impl PaymentRecord {
    /// A record carries a time exactly when it is settled, and the fee is the
    /// gateway's five percent on processed payments and zero otherwise.
    pub open spec fn wf(self) -> bool {
        &&& (self.processed_at is Some <==> self.processor != ProcessorTag::Pending)
        &&& self.fee == if self.processor.is_processed() {
            fee_of(self.amount as int)
        } else {
            0
        }
    }
}

/// A ledger record together with its id.
#[derive(Debug, Clone)]
pub struct Payment {
    pub id: String,
    pub amount: u64,
    pub processor: ProcessorTag,
    pub fee: u64,
    pub processed_at: Option<u64>,
}

/// What an upstream answered for one payment.
#[derive(Debug, Clone)]
pub struct ProcessorResponse {
    pub success: bool,
    pub fee: Option<u64>,
    pub error_message: Option<String>,
}

/// The body sent to an upstream: the payment's id, its amount, and the time of
/// the call in milliseconds since the epoch.
#[derive(Debug, Clone)]
pub struct ProcessorPayload {
    pub correlation_id: String,
    pub amount: u64,
    pub requested_at: u64,
}

/// The gateway's fee: five percent, rounded down.
pub open spec fn fee_of(amount: int) -> int {
    amount / 20
}

/// The fee the gateway keeps on a processed payment of `amount` cents.
pub fn processing_fee(amount: u64) -> (r: u64)
    ensures
        r == fee_of(amount as int),
{
    amount / 20
}

impl ProcessorPayload {
    /// The body for `request`, sent at `now_ms`.
    pub fn for_request(request: &PaymentRequest, now_ms: u64) -> (r: ProcessorPayload)
        ensures
            r.correlation_id@ == request.id@,
            r.amount == request.amount,
            r.requested_at == now_ms,
    {
        ProcessorPayload {
            correlation_id: request.id.clone(),
            amount: request.amount,
            requested_at: now_ms,
        }
    }
}

} // verus!
