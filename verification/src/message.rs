//! The messages exchanged over the shared stream.
use crate::ids::{EndPointId, RequestId};
use vstd::prelude::*;

verus! {

/// What a request asks of the other side.
#[derive(Debug)]
pub enum RequestKind {
    /// Pair the sending endpoint with the endpoint of the given identifier.
    Connect(EndPointId),
    /// Tear a pairing down.
    Disconnect,
    /// Deliver a frame of bytes to the sender's peer.
    Data(Vec<u8>),
}

/// A request sent by the endpoint `self_id`.
#[derive(Debug)]
pub struct Request {
    pub requestid: RequestId,
    pub self_id: EndPointId,
    pub kind: RequestKind,
}

/// The answer to the request whose identifier it carries.
#[derive(Debug)]
pub struct Response {
    pub requestid: RequestId,
    pub status: bool,
}

/// One unit of traffic on the shared stream.
#[derive(Debug)]
pub enum Message {
    Request(Request),
    Response(Response),
}

impl Request {
    /// The response that answers `self` with `status`.
    pub open spec fn spec_response(&self, status: bool) -> Response {
        Response { requestid: self.requestid, status }
    }

    /// Builds the response to this request: same request identifier, the given status.
    pub fn response(&self, status: bool) -> (r: Response)
        ensures
            r.requestid == self.requestid,
            r.status == status,
    {
        Response { requestid: self.requestid, status }
    }

    /// A connect request from `self_id` to `target`, under a fresh random identifier.
    pub fn connect(self_id: EndPointId, target: EndPointId) -> (r: Request)
        ensures
            r.self_id == self_id,
            r.kind == RequestKind::Connect(target),
    {
        Request { requestid: RequestId::new(), self_id, kind: RequestKind::Connect(target) }
    }

    /// A data request carrying `data` from `self_id`, under a fresh random identifier.
    pub fn data(self_id: EndPointId, data: Vec<u8>) -> (r: Request)
        ensures
            r.self_id == self_id,
            r.kind == RequestKind::Data(data),
    {
        Request { requestid: RequestId::new(), self_id, kind: RequestKind::Data(data) }
    }
}

} // verus!
