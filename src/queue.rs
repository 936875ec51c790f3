use vstd::prelude::*;
use tokio::sync::mpsc::{Receiver, Sender};
use tokio::sync::mpsc::error::{TryRecvError, TrySendError};
use crate::payment::{PaymentRequest, RequestView};

verus! {

/// A bounded first-in first-out channel of payment requests. Both ends are
/// held here, since what is queued is state that the two ends share.
#[verifier::external_body]
pub struct IntakeQueue {
    sender: Sender<PaymentRequest>,
    receiver: Receiver<PaymentRequest>,
}

/// The requests waiting in the channel, oldest first.
pub uninterp spec fn queued_requests(q: IntakeQueue) -> Seq<RequestView>;

/// The number of requests the channel holds at most.
pub uninterp spec fn queue_bound(q: IntakeQueue) -> nat;

/// Whether the channel has been closed to new requests.
pub uninterp spec fn queue_closed(q: IntakeQueue) -> bool;

/// What became of a request offered to the queue.
#[derive(Debug, Clone, Copy, PartialEq, Eq, Structural)]
pub enum SendOutcome {
    Accepted,
    Full,
    Closed,
}

/// What a consumer got from the queue.
#[derive(Debug, Clone)]
pub enum RecvOutcome {
    Item(PaymentRequest),
    Empty,
    Closed,
}

/// Relies on `tokio::sync::mpsc::channel`: an open channel with room for
/// `buffer` requests; it panics on 0 and on more than `usize::MAX >> 3`.
#[verifier::external_body]
pub fn create_queue(buffer: usize) -> (r: IntakeQueue)
    requires
        0 < buffer <= usize::MAX / 8,
    ensures
        queued_requests(r) == Seq::<RequestView>::empty(),
        queue_bound(r) == buffer,
        !queue_closed(r),
{
    let (sender, receiver) = tokio::sync::mpsc::channel(buffer);
    IntakeQueue { sender, receiver }
}

impl IntakeQueue {
    /// Relies on `Sender::try_send`: refused on a closed channel, refused
    /// when every place is taken (a place comes back when a request is
    /// received), else appended.
    #[verifier::external_body]
    pub(crate) fn try_send(&mut self, request: PaymentRequest) -> (r: SendOutcome)
        ensures
            queue_bound(*final(self)) == queue_bound(*old(self)),
            queue_closed(*final(self)) == queue_closed(*old(self)),
            r == (if queue_closed(*old(self)) {
                SendOutcome::Closed
            } else if queued_requests(*old(self)).len() < queue_bound(*old(self)) {
                SendOutcome::Accepted
            } else {
                SendOutcome::Full
            }),
            queued_requests(*final(self)) == (if r == SendOutcome::Accepted {
                queued_requests(*old(self)).push(request@)
            } else {
                queued_requests(*old(self))
            }),
    {
        match self.sender.try_send(request) {
            Ok(()) => SendOutcome::Accepted,
            Err(TrySendError::Full(_)) => SendOutcome::Full,
            Err(TrySendError::Closed(_)) => SendOutcome::Closed,
        }
    }

    /// Relies on `Receiver::try_recv`: the oldest request if there is one;
    /// else `Closed` once the channel is closed, `Empty` before.
    #[verifier::external_body]
    pub(crate) fn try_recv(&mut self) -> (r: RecvOutcome)
        ensures
            queue_bound(*final(self)) == queue_bound(*old(self)),
            queue_closed(*final(self)) == queue_closed(*old(self)),
            queued_requests(*old(self)).len() > 0 ==> r is Item && r->Item_0@ == queued_requests(
                *old(self),
            )[0] && queued_requests(*final(self)) == queued_requests(*old(self)).drop_first(),
            queued_requests(*old(self)).len() == 0 ==> queued_requests(*final(self)) == queued_requests(
                *old(self),
            ) && r == (if queue_closed(*old(self)) {
                RecvOutcome::Closed
            } else {
                RecvOutcome::Empty
            }),
    {
        match self.receiver.try_recv() {
            Ok(request) => RecvOutcome::Item(request),
            Err(TryRecvError::Empty) => RecvOutcome::Empty,
            Err(TryRecvError::Disconnected) => RecvOutcome::Closed,
        }
    }

    /// Relies on `Receiver::close`: no request is accepted afterwards; those
    /// queued stay to be received.
    #[verifier::external_body]
    pub(crate) fn close(&mut self)
        ensures
            queue_bound(*final(self)) == queue_bound(*old(self)),
            queue_closed(*final(self)),
            queued_requests(*final(self)) == queued_requests(*old(self)),
    {
        self.receiver.close()
    }

    /// Relies on `Receiver::len`: the number of queued requests.
    #[verifier::external_body]
    pub(crate) fn len(&self) -> (r: usize)
        ensures
            r == queued_requests(*self).len(),
    {
        self.receiver.len()
    }
}

} // verus!
