//! The decisions of the task that forwards what a paired endpoint writes: one
//! data request per written slice, the next one only after the previous one
//! was answered, and no more once an answer was negative.
use crate::error::{transfer_outcome, MStreamError};
use crate::ids::EndPointId;
use crate::message::{Request, RequestKind};
use vstd::prelude::*;

verus! {

/// The abstract state of a transfer: whose slices it forwards, whether a
/// request awaits its answer, whether an answer was negative, and the slices
/// sent so far, in order.
pub struct TransferView {
    pub self_id: EndPointId,
    pub waiting: bool,
    pub failed: bool,
    pub sent: Seq<Seq<u8>>,
}

impl TransferView {
    /// A slice may be sent when no request awaits its answer and none failed.
    pub open spec fn ready(self) -> bool {
        !self.waiting && !self.failed
    }

    /// The state once `data` was sent.
    pub open spec fn after_send(self, data: Seq<u8>) -> Self {
        TransferView { waiting: true, sent: self.sent.push(data), ..self }
    }

    /// The state once the awaited answer arrived with `status`.
    pub open spec fn after_answer(self, status: bool) -> Self {
        TransferView { waiting: false, failed: !status, ..self }
    }

    /// The state after sending each of `slices` in turn, each answered with
    /// the status at the same index, stopping after the first negative one.
    pub open spec fn after_slices(self, slices: Seq<Seq<u8>>, statuses: Seq<bool>) -> Self
        decreases slices.len(),
    {
        if slices.len() == 0 || statuses.len() == 0 || !self.ready() {
            self
        } else {
            self.after_send(slices[0]).after_answer(statuses[0]).after_slices(
                slices.drop_first(),
                statuses.drop_first(),
            )
        }
    }
}

/// The forwarding state of one paired endpoint.
pub struct Transfer {
    self_id: EndPointId,
    waiting: bool,
    failed: bool,
    sent: Ghost<Seq<Seq<u8>>>,
}

impl View for Transfer {
    type V = TransferView;

    closed spec fn view(&self) -> TransferView {
        TransferView { self_id: self.self_id, waiting: self.waiting, failed: self.failed, sent: self.sent@ }
    }
}

impl Transfer {
    /// A transfer for endpoint `self_id` that has sent nothing yet.
    pub fn new(self_id: EndPointId) -> (t: Self)
        ensures
            t@ == (TransferView { self_id, waiting: false, failed: false, sent: Seq::empty() }),
    {
        Transfer { self_id, waiting: false, failed: false, sent: Ghost(Seq::empty()) }
    }

    /// Whether a slice may be sent now.
    pub fn is_ready(&self) -> (b: bool)
        ensures
            b == self@.ready(),
    {
        !self.waiting && !self.failed
    }

    /// Whether a sent request awaits its answer.
    pub fn is_waiting(&self) -> (b: bool)
        ensures
            b == self@.waiting,
    {
        self.waiting
    }

    /// The data request that carries the written slice `data`.
    pub fn send(&mut self, data: Vec<u8>) -> (req: Request)
        requires
            old(self)@.ready(),
        ensures
            final(self)@ == old(self)@.after_send(data@),
            req.self_id == old(self)@.self_id,
            req.kind == RequestKind::Data(data),
    {
        proof {
            self.sent@ = self.sent@.push(data@);
        }
        self.waiting = true;
        Request::data(self.self_id, data)
    }

    /// Records the answer to the awaited request: a positive one lets the next
    /// slice go, a negative one ends the transfer with an error.
    pub fn answer(&mut self, status: bool) -> (r: Result<(), MStreamError>)
        requires
            old(self)@.waiting,
        ensures
            final(self)@ == old(self)@.after_answer(status),
            status ==> r == Ok::<(), MStreamError>(()),
            !status ==> r == Err::<(), MStreamError>(MStreamError::TransferFailed),
    {
        self.waiting = false;
        self.failed = !status;
        transfer_outcome(status)
    }
}

} // verus!
