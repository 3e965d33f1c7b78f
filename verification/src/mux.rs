//! The state kept by the worker that serves the shared stream, and its
//! reaction to each event: a new endpoint, a request submitted by a local
//! endpoint, an endpoint waiting for a peer, and a message from the other side.
//!
//! The state is generic in the resources it holds for the caller: `C` is an
//! endpoint's end of its data channel, `W` what is released when a request is
//! answered, `A` what is released when a waiting endpoint is paired, and `P`
//! the channel towards which data frames from a peer are written.
use crate::endpoint::{EndPointStatus, EndPointView, InnerEndPoint};
use crate::error::MStreamError;
use crate::ids::EndPointId;
use crate::message::{Message, Request, RequestKind, Response};
use std::collections::HashMap;
use vstd::prelude::*;

verus! {

broadcast use vstd::std_specs::hash::group_hash_axioms;

/// A request sent to the other side and not answered yet.
pub struct Pending<W> {
    /// The endpoint the requester is (or is to be) paired with.
    pub target: EndPointId,
    /// The local endpoint that sent the request.
    pub owner: EndPointId,
    /// Released when the answer arrives.
    pub waiter: W,
}

/// A pairing made while handling a message: `endpoint` handed out `channel`
/// and is now connected; the data it writes goes to `peer`.
pub struct Link<C> {
    pub channel: C,
    pub endpoint: EndPointId,
    pub peer: EndPointId,
}

/// What the caller has to do after a message from the other side.
#[allow(inconsistent_fields)]
pub enum Step<C, W, A, P> {
    /// A connect request met a waiting endpoint: pair it through `link`,
    /// release `waiter` and send `reply`.
    Accepted { link: Link<C>, waiter: A, reply: Message },
    /// A connect request met no waiting endpoint: send `reply`.
    Refused { reply: Message },
    /// A data frame from `peer`: write `data` to `point`, give `point` back
    /// with `attach_point`, and send `reply`.
    Deliver { peer: EndPointId, point: P, data: Vec<u8>, reply: Message },
    /// An answer to a pending request: release `waiter` with `status`; if the
    /// answer is positive and the requester was still unconnected, it is now
    /// paired through `link`.
    Answered { waiter: W, status: bool, link: Option<Link<C>> },
}

/// The abstract state: endpoints by identifier, pending requests by request
/// identifier, waiting endpoints by identifier, and peer channels by the
/// peer's identifier.
#[verifier::ext_equal]
pub struct MuxView<C, W, A, P> {
    pub endpoints: Map<usize, EndPointView<C>>,
    pub pending: Map<usize, Pending<W>>,
    pub accepting: Map<usize, A>,
    pub points: Map<usize, P>,
}

impl<C, W, A, P> MuxView<C, W, A, P> {
    /// Endpoints are stored under their own identifier, and every waiting
    /// endpoint and every requester of a pending request is a known endpoint.
    pub open spec fn wf(self) -> bool {
        &&& forall|k: usize| #[trigger]
            self.endpoints.contains_key(k) ==> self.endpoints[k].self_id.0 == k
        &&& forall|k: usize| #[trigger]
            self.accepting.contains_key(k) ==> self.endpoints.contains_key(k)
        &&& forall|k: usize| #[trigger]
            self.pending.contains_key(k) ==> self.endpoints.contains_key(self.pending[k].owner.0)
    }

    pub open spec fn is_registered(self, id: EndPointId) -> bool {
        self.endpoints.contains_key(id.0)
    }

    /// The state once endpoint `id` is registered with its channel end.
    pub open spec fn after_register(self, id: EndPointId, channel: C) -> Self {
        MuxView {
            endpoints: self.endpoints.insert(id.0, EndPointView { self_id: id, status: EndPointStatus::Unconnected(channel) }),
            ..self
        }
    }

    /// The endpoint a request is addressed to: the target of a connect request,
    /// and the sender's recorded target for any other request.
    pub open spec fn submit_target(self, req: Request) -> EndPointId {
        match req.kind {
            RequestKind::Connect(target) => target,
            _ => self.endpoints[req.self_id.0].spec_target_id()->Some_0,
        }
    }

    /// A request can be submitted when its sender is known, is connected unless
    /// the request is a connect request, and its identifier is not pending.
    pub open spec fn can_submit(self, req: Request) -> bool {
        &&& self.endpoints.contains_key(req.self_id.0)
        &&& !(req.kind is Connect) ==> self.endpoints[req.self_id.0].spec_target_id() is Some
        &&& !self.pending.contains_key(req.requestid.0)
    }

    /// The state once `req` is pending with `waiter`.
    pub open spec fn after_submit(self, req: Request, waiter: W) -> Self {
        MuxView {
            pending: self.pending.insert(
                req.requestid.0,
                Pending { target: self.submit_target(req), owner: req.self_id, waiter },
            ),
            ..self
        }
    }

    /// An endpoint can wait for a peer when it is known and not waiting already.
    pub open spec fn can_accept(self, id: EndPointId) -> bool {
        self.endpoints.contains_key(id.0) && !self.accepting.contains_key(id.0)
    }

    /// The messages that the worker can handle: a connect request that meets a
    /// waiting endpoint meets an unconnected one, data comes from a paired peer,
    /// an answer answers a pending request, and no request asks for a teardown.
    pub open spec fn admits(self, msg: Message) -> bool {
        match msg {
            Message::Request(req) => match req.kind {
                RequestKind::Connect(target) => self.accepting.contains_key(target.0)
                    ==> self.endpoints[target.0].status is Unconnected,
                RequestKind::Disconnect => false,
                RequestKind::Data(_) => self.points.contains_key(req.self_id.0),
            },
            Message::Response(resp) => self.pending.contains_key(resp.requestid.0),
        }
    }

    /// The state after a message from the other side, and what is to be done.
    pub open spec fn on_message(self, msg: Message) -> (Self, Step<C, W, A, P>) {
        match msg {
            Message::Request(req) => match req.kind {
                RequestKind::Connect(target) => if self.accepting.contains_key(target.0) {
                    let ep = self.endpoints[target.0];
                    (
                        MuxView {
                            endpoints: self.endpoints.insert(target.0, ep.paired_with(target)),
                            accepting: self.accepting.remove(target.0),
                            ..self
                        },
                        Step::Accepted {
                            link: Link { channel: ep.status->Unconnected_0, endpoint: target, peer: req.self_id },
                            waiter: self.accepting[target.0],
                            reply: Message::Response(req.spec_response(true)),
                        },
                    )
                } else {
                    (self, Step::Refused { reply: Message::Response(req.spec_response(false)) })
                },
                RequestKind::Data(data) => (
                    MuxView { points: self.points.remove(req.self_id.0), ..self },
                    Step::Deliver {
                        peer: req.self_id,
                        point: self.points[req.self_id.0],
                        data,
                        reply: Message::Response(req.spec_response(true)),
                    },
                ),
                // Never admitted: a teardown request is not handled.
                RequestKind::Disconnect => vstd::pervasive::arbitrary(),
            },
            Message::Response(resp) => {
                let p = self.pending[resp.requestid.0];
                let ep = self.endpoints[p.owner.0];
                let answered = MuxView { pending: self.pending.remove(resp.requestid.0), ..self };
                if ep.status is Unconnected && resp.status {
                    (
                        MuxView { endpoints: self.endpoints.insert(p.owner.0, ep.paired_with(p.target)), ..answered },
                        Step::Answered {
                            waiter: p.waiter,
                            status: resp.status,
                            link: Some(Link { channel: ep.status->Unconnected_0, endpoint: p.owner, peer: p.target }),
                        },
                    )
                } else {
                    (answered, Step::Answered { waiter: p.waiter, status: resp.status, link: None })
                }
            },
        }
    }
}

/// The maps behind `MuxState`: endpoints by identifier, pending requests by
/// request identifier, waiting endpoints by identifier, peer channels by the
/// peer's identifier.
struct MuxTables<C, W, A, P> {
    endpoints: HashMap<usize, InnerEndPoint<C>>,
    response_waits: HashMap<usize, Pending<W>>,
    accept_waits: HashMap<usize, A>,
    connected_points: HashMap<usize, P>,
}

impl<C, W, A, P> View for MuxTables<C, W, A, P> {
    type V = MuxView<C, W, A, P>;

    closed spec fn view(&self) -> MuxView<C, W, A, P> {
        MuxView {
            endpoints: self.endpoints@.map_values(|ep: InnerEndPoint<C>| ep@),
            pending: self.response_waits@,
            accepting: self.accept_waits@,
            points: self.connected_points@,
        }
    }
}

impl<C, W, A, P> MuxTables<C, W, A, P> {
    fn empty() -> (t: Self)
        ensures
            t@.endpoints == Map::<usize, EndPointView<C>>::empty(),
            t@.pending == Map::<usize, Pending<W>>::empty(),
            t@.accepting == Map::<usize, A>::empty(),
            t@.points == Map::<usize, P>::empty(),
    {
        MuxTables {
            endpoints: HashMap::new(),
            response_waits: HashMap::new(),
            accept_waits: HashMap::new(),
            connected_points: HashMap::new(),
        }
    }
}

/// The worker's state.  It is always well formed (`MuxView::wf`).
pub struct MuxState<C, W, A, P> {
    tables: MuxTables<C, W, A, P>,
}

impl<C, W, A, P> View for MuxState<C, W, A, P> {
    type V = MuxView<C, W, A, P>;

    closed spec fn view(&self) -> MuxView<C, W, A, P> {
        self.tables@
    }
}

impl<C, W, A, P> MuxState<C, W, A, P> {
    #[verifier::type_invariant]
    spec fn well_formed(self) -> bool {
        self.tables@.wf()
    }

    /// Takes the maps out to work on them, leaving empty ones in their place.
    fn take_tables(&mut self) -> (t: MuxTables<C, W, A, P>)
        ensures
            t@ == old(self)@,
            t@.wf(),
    {
        proof {
            use_type_invariant(&*self);
        }
        let mut t = MuxTables::empty();
        assert(t@.wf());
        std::mem::swap(&mut t, &mut self.tables);
        t
    }

    /// A state with no endpoint, no pending request, no waiting endpoint and no peer.
    pub fn new() -> (s: Self)
        ensures
            s@.wf(),
            s@.endpoints == Map::<usize, EndPointView<C>>::empty(),
            s@.pending == Map::<usize, Pending<W>>::empty(),
            s@.accepting == Map::<usize, A>::empty(),
            s@.points == Map::<usize, P>::empty(),
    {
        MuxState { tables: MuxTables::empty() }
    }

    /// Whether an endpoint with this identifier exists.
    pub fn is_registered(&self, id: EndPointId) -> (b: bool)
        ensures
            b == self@.is_registered(id),
    {
        self.tables.endpoints.contains_key(&id.0)
    }

    /// Adds a new unconnected endpoint `id` holding `channel`; an identifier
    /// that is already taken is refused and the state is left as it was.
    pub fn new_endpoint(&mut self, id: EndPointId, channel: C) -> (r: Result<(), MStreamError>)
        ensures
            final(self)@.wf(),
            r is Ok <==> !old(self)@.is_registered(id),
            r is Ok ==> final(self)@ == old(self)@.after_register(id, channel),
            r matches Err(e) ==> e == MStreamError::EndPointExists && final(self)@ == old(self)@,
    {
        let mut t = self.take_tables();
        let r = if t.endpoints.contains_key(&id.0) {
            Err(MStreamError::EndPointExists)
        } else {
            t.endpoints.insert(id.0, InnerEndPoint::new(id, channel));
            assert(t@ =~= old(self)@.after_register(id, channel));
            Ok(())
        };
        self.tables = t;
        r
    }

    /// The pairing target recorded for endpoint `id`; `None` unless it is connected.
    pub fn target_id(&self, id: EndPointId) -> (t: Option<EndPointId>)
        requires
            self@.is_registered(id),
        ensures
            t == self@.endpoints[id.0].spec_target_id(),
    {
        proof {
            use_type_invariant(self);
        }
        let ep = self.tables.endpoints.get(&id.0).unwrap();
        ep.target_id()
    }

    /// Endpoint `id` starts a connection to `target`: it gets the connect
    /// request to send if it is unconnected, and is refused otherwise.
    pub fn connect(&self, id: EndPointId, target: EndPointId) -> (r: Result<Request, MStreamError>)
        requires
            self@.is_registered(id),
        ensures
            r is Ok <==> self@.endpoints[id.0].status is Unconnected,
            r matches Ok(req) ==> req.self_id == self@.endpoints[id.0].self_id && req.kind
                == RequestKind::Connect(target),
            r matches Err(e) ==> e == MStreamError::NotUnconnected,
    {
        proof {
            use_type_invariant(self);
        }
        let ep = self.tables.endpoints.get(&id.0).unwrap();
        ep.connect(target)
    }

    /// Whether endpoint `id` may wait for a peer: only an unconnected one may.
    pub fn accept(&self, id: EndPointId) -> (r: Result<(), MStreamError>)
        requires
            self@.is_registered(id),
        ensures
            r is Ok <==> self@.endpoints[id.0].status is Unconnected,
            r matches Err(e) ==> e == MStreamError::NotUnconnected,
    {
        proof {
            use_type_invariant(self);
        }
        let ep = self.tables.endpoints.get(&id.0).unwrap();
        ep.accept()
    }

    /// Whether `request` can be submitted now (see `MuxView::can_submit`).
    pub fn can_submit(&self, request: &Request) -> (b: bool)
        ensures
            b == self@.can_submit(*request),
    {
        match self.tables.endpoints.get(&request.self_id.0) {
            None => false,
            Some(ep) => {
                let addressed = match &request.kind {
                    RequestKind::Connect(_) => true,
                    _ => ep.target_id().is_some(),
                };
                addressed && !self.tables.response_waits.contains_key(&request.requestid.0)
            },
        }
    }

    /// Records `request` as pending, to be answered through `waiter`, and gives
    /// back the message that carries it to the other side.
    pub fn submit(&mut self, request: Request, waiter: W) -> (msg: Message)
        requires
            old(self)@.can_submit(request),
        ensures
            final(self)@.wf(),
            final(self)@ == old(self)@.after_submit(request, waiter),
            msg == Message::Request(request),
    {
        let mut t = self.take_tables();
        let target = match &request.kind {
            RequestKind::Connect(t) => *t,
            _ => {
                let ep = t.endpoints.get(&request.self_id.0).unwrap();
                ep.target_id().unwrap()
            },
        };
        let owner = request.self_id;
        t.response_waits.insert(request.requestid.0, Pending { target, owner, waiter });
        assert(t@ =~= old(self)@.after_submit(request, waiter));
        self.tables = t;
        Message::Request(request)
    }

    /// Whether endpoint `id` can start waiting for a peer (see `MuxView::can_accept`).
    pub fn can_accept(&self, id: EndPointId) -> (b: bool)
        ensures
            b == self@.can_accept(id),
    {
        self.tables.endpoints.contains_key(&id.0) && !self.tables.accept_waits.contains_key(&id.0)
    }

    /// Endpoint `id` waits for a peer; `waiter` is released when one connects.
    pub fn wait_accept(&mut self, id: EndPointId, waiter: A)
        requires
            old(self)@.can_accept(id),
        ensures
            final(self)@.wf(),
            final(self)@ == (MuxView { accepting: old(self)@.accepting.insert(id.0, waiter), ..old(self)@ }),
    {
        let mut t = self.take_tables();
        t.accept_waits.insert(id.0, waiter);
        assert(t@ =~= (MuxView { accepting: old(self)@.accepting.insert(id.0, waiter), ..old(self)@ }));
        self.tables = t;
    }

    /// Whether the worker can handle `msg` (see `MuxView::admits`).
    pub fn admits(&self, msg: &Message) -> (b: bool)
        ensures
            b == self@.admits(*msg),
    {
        proof {
            use_type_invariant(self);
        }
        match msg {
            Message::Request(req) => match &req.kind {
                RequestKind::Connect(target) => match self.tables.accept_waits.get(&target.0) {
                    None => true,
                    Some(_) => match self.tables.endpoints.get(&target.0) {
                        Some(ep) => ep.is_unconnected(),
                        None => false,
                    },
                },
                RequestKind::Disconnect => false,
                RequestKind::Data(_) => self.tables.connected_points.contains_key(&req.self_id.0),
            },
            Message::Response(resp) => self.tables.response_waits.contains_key(&resp.requestid.0),
        }
    }

    /// Handles a message from the other side.
    pub fn on_message(&mut self, msg: Message) -> (step: Step<C, W, A, P>)
        requires
            old(self)@.admits(msg),
        ensures
            final(self)@.wf(),
            (final(self)@, step) == old(self)@.on_message(msg),
    {
        let mut t = self.take_tables();
        let step = match msg {
            Message::Request(request) => {
                let Request { requestid, self_id, kind } = request;
                match kind {
                    RequestKind::Connect(target) => match t.accept_waits.remove(&target.0) {
                        Some(waiter) => {
                            let mut ep = t.endpoints.remove(&target.0).unwrap();
                            let channel = ep.set_connect(target);
                            t.endpoints.insert(target.0, ep);
                            let reply = Message::Response(Response { requestid, status: true });
                            assert(t@ =~= old(self)@.on_message(msg).0);
                            Step::Accepted { link: Link { channel, endpoint: target, peer: self_id }, waiter, reply }
                        },
                        None => {
                            Step::Refused { reply: Message::Response(Response { requestid, status: false }) }
                        },
                    },
                    RequestKind::Data(data) => {
                        let point = t.connected_points.remove(&self_id.0).unwrap();
                        let reply = Message::Response(Response { requestid, status: true });
                        assert(t@ =~= old(self)@.on_message(msg).0);
                        Step::Deliver { peer: self_id, point, data, reply }
                    },
                    RequestKind::Disconnect => vstd::pervasive::unreached(),
                }
            },
            Message::Response(response) => {
                let Pending { target, owner, waiter } = t.response_waits.remove(&response.requestid.0).unwrap();
                let mut ep = t.endpoints.remove(&owner.0).unwrap();
                let link = if ep.is_unconnected() && response.status {
                    let channel = ep.set_connect(target);
                    Some(Link { channel, endpoint: owner, peer: target })
                } else {
                    None
                };
                t.endpoints.insert(owner.0, ep);
                assert(t@ =~= old(self)@.on_message(msg).0);
                Step::Answered { waiter, status: response.status, link }
            },
        };
        self.tables = t;
        step
    }

    /// Makes `point` the channel towards which data from `peer` is written,
    /// replacing any earlier one.
    pub fn attach_point(&mut self, peer: EndPointId, point: P)
        ensures
            final(self)@.wf(),
            final(self)@ == (MuxView { points: old(self)@.points.insert(peer.0, point), ..old(self)@ }),
    {
        let mut t = self.take_tables();
        t.connected_points.insert(peer.0, point);
        assert(t@ =~= (MuxView { points: old(self)@.points.insert(peer.0, point), ..old(self)@ }));
        self.tables = t;
    }
}

} // verus!
