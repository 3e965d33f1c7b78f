//! The state of one logical endpoint.
use crate::error::MStreamError;
use crate::ids::EndPointId;
use crate::message::{Request, RequestKind};
use vstd::prelude::*;

verus! {

/// Where an endpoint stands in its life.  `C` is the endpoint's end of the
/// channel that carries its data; the endpoint holds it until it is paired.
pub enum EndPointStatus<C> {
    /// Not paired yet; the channel end is still held here.
    Unconnected(C),
    /// Paired; the identifier recorded at pairing time.
    Connected(EndPointId),
    /// Torn down.
    Disconnected,
}

/// What an endpoint is, as contracts see it: its identifier and its status.
pub struct EndPointView<C> {
    pub self_id: EndPointId,
    pub status: EndPointStatus<C>,
}

impl<C> EndPointView<C> {
    /// The pairing target, if the endpoint is connected.
    pub open spec fn spec_target_id(self) -> Option<EndPointId> {
        match self.status {
            EndPointStatus::Connected(target) => Some(target),
            _ => None,
        }
    }

    /// This endpoint, paired with `target`.
    pub open spec fn paired_with(self, target: EndPointId) -> Self {
        EndPointView { self_id: self.self_id, status: EndPointStatus::Connected(target) }
    }
}

/// One endpoint of the multiplexed stream.  Its identifier never changes,
/// and only `set_connect`, which needs an unconnected endpoint, changes its
/// status: so it is paired at most once and stays paired.
pub struct InnerEndPoint<C> {
    self_id: EndPointId,
    status: EndPointStatus<C>,
}

impl<C> View for InnerEndPoint<C> {
    type V = EndPointView<C>;

    closed spec fn view(&self) -> EndPointView<C> {
        EndPointView { self_id: self.self_id, status: self.status }
    }
}

impl<C> InnerEndPoint<C> {
    /// A new, unconnected endpoint holding its end of the data channel.
    pub fn new(self_id: EndPointId, inner_channel: C) -> (ep: Self)
        ensures
            ep@ == (EndPointView { self_id, status: EndPointStatus::Unconnected(inner_channel) }),
    {
        InnerEndPoint { self_id, status: EndPointStatus::Unconnected(inner_channel) }
    }

    /// Starts a connection to `target`: an unconnected endpoint gets the
    /// connect request to send; any other endpoint is refused.
    pub fn connect(&self, target: EndPointId) -> (r: Result<Request, MStreamError>)
        ensures
            r is Ok <==> self@.status is Unconnected,
            r matches Ok(req) ==> req.self_id == self@.self_id && req.kind == RequestKind::Connect(
                target,
            ),
            r matches Err(e) ==> e == MStreamError::NotUnconnected,
    {
        if let EndPointStatus::Unconnected(_) = self.status {
            Ok(Request::connect(self.self_id, target))
        } else {
            Err(MStreamError::NotUnconnected)
        }
    }

    /// Whether this endpoint may wait for an incoming connection: only an
    /// unconnected one may.
    pub fn accept(&self) -> (r: Result<(), MStreamError>)
        ensures
            r is Ok <==> self@.status is Unconnected,
            r matches Err(e) ==> e == MStreamError::NotUnconnected,
    {
        if let EndPointStatus::Unconnected(_) = self.status {
            Ok(())
        } else {
            Err(MStreamError::NotUnconnected)
        }
    }

    /// The endpoint's own identifier.
    pub fn self_id(&self) -> (id: EndPointId)
        ensures
            id == self@.self_id,
    {
        self.self_id
    }

    /// The identifier recorded when the endpoint was paired; `None` unless connected.
    pub fn target_id(&self) -> (t: Option<EndPointId>)
        ensures
            t == self@.spec_target_id(),
    {
        if let EndPointStatus::Connected(target) = self.status {
            Some(target)
        } else {
            None
        }
    }

    /// Pairs an unconnected endpoint with `target`, handing out the channel end
    /// it held.
    pub fn set_connect(&mut self, target: EndPointId) -> (channel: C)
        requires
            old(self)@.status is Unconnected,
        ensures
            final(self)@ == old(self)@.paired_with(target),
            old(self)@.status == EndPointStatus::Unconnected(channel),
    {
        let mut previous = EndPointStatus::Connected(target);
        std::mem::swap(&mut self.status, &mut previous);
        match previous {
            EndPointStatus::Unconnected(stream) => stream,
            _ => vstd::pervasive::unreached(),
        }
    }

    /// Whether the endpoint is still unconnected.
    pub fn is_unconnected(&self) -> (b: bool)
        ensures
            b <==> self@.status is Unconnected,
    {
        matches!(self.status, EndPointStatus::Unconnected(_))
    }
}

} // verus!
