//! Properties of the protocol that span several operations.
use crate::endpoint::EndPointView;
use crate::ids::EndPointId;
use crate::message::{Message, Request, RequestKind, Response};
use crate::mux::{Link, MuxView, Step};
use crate::transfer::TransferView;
use vstd::prelude::*;

verus! {

/// The reply that a step sends to the other side, if any.
pub open spec fn reply_of<C, W, A, P>(step: Step<C, W, A, P>) -> Option<Message> {
    match step {
        Step::Accepted { reply, .. } => Some(reply),
        Step::Refused { reply } => Some(reply),
        Step::Deliver { reply, .. } => Some(reply),
        Step::Answered { .. } => None,
    }
}

/// Once paired, an endpoint keeps its identifier, reports the target it was
/// paired with, refuses to connect or accept again, and can never be paired
/// again (`set_connect` needs an unconnected endpoint).  Since `set_connect`
/// is the only operation that changes an endpoint, this holds for every
/// sequence of operations that follows.
pub proof fn lemma_paired_endpoint_refuses<C>(ep: EndPointView<C>, target: EndPointId)
    ensures
        !(ep.paired_with(target).status is Unconnected),
        ep.paired_with(target).spec_target_id() == Some(target),
        ep.paired_with(target).self_id == ep.self_id,
{
}

/// No message from the other side adds or removes an endpoint, and neither
/// does submitting a request: an identifier once registered stays taken, so
/// registering it again is refused for the life of the stream.
pub proof fn lemma_endpoints_persist<C, W, A, P>(
    s: MuxView<C, W, A, P>,
    msg: Message,
    req: Request,
    waiter: W,
)
    requires
        s.wf(),
    ensures
        s.admits(msg) ==> s.on_message(msg).0.endpoints.dom() == s.endpoints.dom(),
        s.after_submit(req, waiter).endpoints == s.endpoints,
{
    if s.admits(msg) {
        match msg {
            Message::Request(r) => match r.kind {
                RequestKind::Connect(t) => {
                    if s.accepting.contains_key(t.0) {
                        assert(s.on_message(msg).0.endpoints.dom() =~= s.endpoints.dom());
                    }
                },
                _ => {},
            },
            Message::Response(resp) => {
                assert(s.on_message(msg).0.endpoints.dom() =~= s.endpoints.dom());
            },
        }
    }
}

/// Pairing is permanent: a message from the other side leaves every endpoint
/// that is no longer unconnected exactly as it was.
pub proof fn lemma_pairing_is_permanent<C, W, A, P>(s: MuxView<C, W, A, P>, msg: Message, k: usize)
    requires
        s.wf(),
        s.admits(msg),
        s.endpoints.contains_key(k),
        !(s.endpoints[k].status is Unconnected),
    ensures
        s.on_message(msg).0.endpoints[k] == s.endpoints[k],
{
}

/// Every request from the other side is answered with a response that
/// carries the request's identifier; its status is positive exactly when a
/// connect request met a waiting endpoint or the request carried data.  A
/// connect request that meets no waiting endpoint changes nothing.
pub proof fn lemma_requests_are_answered<C, W, A, P>(s: MuxView<C, W, A, P>, req: Request)
    requires
        s.wf(),
        s.admits(Message::Request(req)),
    ensures
        reply_of(s.on_message(Message::Request(req)).1) == Some(
            Message::Response(
                Response {
                    requestid: req.requestid,
                    status: match req.kind {
                        RequestKind::Connect(t) => s.accepting.contains_key(t.0),
                        _ => true,
                    },
                },
            ),
        ),
        (req.kind matches RequestKind::Connect(t) && !s.accepting.contains_key(t.0)) ==> s.on_message(
            Message::Request(req),
        ).0 == s,
{
}

/// What a request was submitted with is what its answer releases: after
/// `req` is submitted with `waiter`, the answer to it is handled, releases
/// exactly `waiter` with the answer's status, and leaves the pending requests
/// as they were before the submission.  A requester that was still
/// unconnected is paired with the request's target exactly when the answer
/// is positive; after a negative answer it stays as it was, so it can retry.
pub proof fn lemma_answer_releases_waiter<C, W, A, P>(
    s: MuxView<C, W, A, P>,
    req: Request,
    waiter: W,
    status: bool,
)
    requires
        s.wf(),
        s.can_submit(req),
    ensures
        ({
            let s1 = s.after_submit(req, waiter);
            let answer = Message::Response(Response { requestid: req.requestid, status });
            let owner = req.self_id.0;
            &&& s1.wf()
            &&& s1.admits(answer)
            &&& s1.on_message(answer).1 matches Step::Answered { waiter: w, status: st, .. } && w
                == waiter && st == status
            &&& s1.on_message(answer).0.pending == s.pending
            &&& s1.on_message(answer).0.endpoints[owner] == if s.endpoints[owner].status is Unconnected
                && status {
                s.endpoints[owner].paired_with(s.submit_target(req))
            } else {
                s.endpoints[owner]
            }
            &&& (s1.on_message(answer).1 matches Step::Answered { link, .. } && (link is Some <==> (
            s.endpoints[owner].status is Unconnected && status)))
        }),
{
    let s1 = s.after_submit(req, waiter);
    let answer = Message::Response(Response { requestid: req.requestid, status });
    assert(s1.on_message(answer).0.pending =~= s.pending);
}

/// The connect/accept handshake: once endpoint `id` waits for a peer, a
/// connect request for `id` pairs it, hands out its channel end, releases its
/// waiter and is answered positively.
pub proof fn lemma_connect_meets_waiting_endpoint<C, W, A, P>(
    s: MuxView<C, W, A, P>,
    id: EndPointId,
    waiter: A,
    req: Request,
)
    requires
        s.wf(),
        s.can_accept(id),
        s.endpoints[id.0].status is Unconnected,
        req.kind == RequestKind::Connect(id),
    ensures
        ({
            let s1 = MuxView { accepting: s.accepting.insert(id.0, waiter), ..s };
            let msg = Message::Request(req);
            &&& s1.wf()
            &&& s1.admits(msg)
            &&& s1.on_message(msg).1 == Step::<C, W, A, P>::Accepted {
                link: Link {
                    channel: s.endpoints[id.0].status->Unconnected_0,
                    endpoint: id,
                    peer: req.self_id,
                },
                waiter,
                reply: Message::Response(Response { requestid: req.requestid, status: true }),
            }
            &&& s1.on_message(msg).0.accepting == s.accepting
            &&& s1.on_message(msg).0.endpoints[id.0].spec_target_id() == Some(id)
        }),
{
    let s1 = MuxView { accepting: s.accepting.insert(id.0, waiter), ..s };
    let msg = Message::Request(req);
    assert(s1.on_message(msg).0.accepting =~= s.accepting);
}

/// A data frame is delivered unchanged to the channel attached for its
/// sender, and giving that channel back restores the state as it was.
pub proof fn lemma_delivery_round_trip<C, W, A, P>(s: MuxView<C, W, A, P>, req: Request, data: Vec<u8>)
    requires
        s.wf(),
        req.kind == RequestKind::Data(data),
        s.points.contains_key(req.self_id.0),
    ensures
        ({
            let (s1, step) = s.on_message(Message::Request(req));
            &&& s.admits(Message::Request(req))
            &&& step matches Step::Deliver { peer, point, data: d, .. } && peer == req.self_id
                && point == s.points[req.self_id.0] && d == data
                && (MuxView { points: s1.points.insert(peer.0, point), ..s1 }) == s
        }),
{
    let (s1, step) = s.on_message(Message::Request(req));
    assert(s1.points.insert(req.self_id.0, s.points[req.self_id.0]) =~= s.points);
}

/// Keeping the worker's state well formed does not depend on the message.
pub proof fn lemma_message_keeps_wf<C, W, A, P>(s: MuxView<C, W, A, P>, msg: Message)
    requires
        s.wf(),
        s.admits(msg),
    ensures
        s.on_message(msg).0.wf(),
{
}

/// The state once the caller has done what `step` asks to give back: the
/// channel of a delivered frame is attached again for its sender.
pub open spec fn settle<C, W, A, P>(s: MuxView<C, W, A, P>, step: Step<C, W, A, P>) -> MuxView<C, W, A, P> {
    match step {
        Step::Deliver { peer, point, .. } => MuxView { points: s.points.insert(peer.0, point), ..s },
        _ => s,
    }
}

/// Whether the worker can handle each of `msgs` in turn.
pub open spec fn serves_all<C, W, A, P>(s: MuxView<C, W, A, P>, msgs: Seq<Message>) -> bool
    decreases msgs.len(),
{
    if msgs.len() == 0 {
        true
    } else {
        &&& s.admits(msgs[0])
        &&& serves_all(settle(s.on_message(msgs[0]).0, s.on_message(msgs[0]).1), msgs.drop_first())
    }
}

/// The steps the worker takes for `msgs`, in order.
pub open spec fn serve<C, W, A, P>(s: MuxView<C, W, A, P>, msgs: Seq<Message>) -> Seq<Step<C, W, A, P>>
    decreases msgs.len(),
{
    if msgs.len() == 0 {
        Seq::empty()
    } else {
        seq![s.on_message(msgs[0]).1] + serve(
            settle(s.on_message(msgs[0]).0, s.on_message(msgs[0]).1),
            msgs.drop_first(),
        )
    }
}

/// Over any sequence of messages that the worker handles, every request gets
/// exactly one reply, sent when it is handled (so in the order of the
/// requests), carrying that request's identifier; answers get no reply.
pub proof fn lemma_each_request_answered_in_order<C, W, A, P>(s: MuxView<C, W, A, P>, msgs: Seq<Message>)
    requires
        s.wf(),
        serves_all(s, msgs),
    ensures
        serve(s, msgs).len() == msgs.len(),
        forall|i: int|
            0 <= i < msgs.len() ==> (reply_of(#[trigger] serve(s, msgs)[i]) is Some <==> msgs[i] is Request),
        forall|i: int|
            0 <= i < msgs.len() && msgs[i] is Request ==> (reply_of(#[trigger] serve(s, msgs)[i]) matches Some(
                Message::Response(r),
            ) && r.requestid == msgs[i]->Request_0.requestid),
    decreases msgs.len(),
{
    if msgs.len() > 0 {
        let (s1, st) = s.on_message(msgs[0]);
        let rest = msgs.drop_first();
        lemma_message_keeps_wf(s, msgs[0]);
        lemma_each_request_answered_in_order(settle(s1, st), rest);
        match msgs[0] {
            Message::Request(q) => lemma_requests_are_answered(s, q),
            Message::Response(_) => {},
        }
        let tail = serve(settle(s1, st), rest);
        assert forall|i: int| 0 < i < msgs.len() implies #[trigger] serve(s, msgs)[i] == tail[i - 1] && msgs[i]
            == rest[i - 1] by {}
    }
}

/// Whether every message is a data frame from a sender that has a channel
/// attached in `s`.
pub open spec fn frames_from_attached<C, W, A, P>(s: MuxView<C, W, A, P>, msgs: Seq<Message>) -> bool {
    forall|i: int|
        0 <= i < msgs.len() ==> (#[trigger] msgs[i] matches Message::Request(q) && q.kind is Data
            && s.points.contains_key(q.self_id.0))
}

/// Data frames are delivered unchanged, in the order they arrive, each to the
/// channel attached for its own sender and to no other, and each is answered
/// positively with its own identifier.  So the frames of one sender reach its
/// channel in the order they were sent, without loss, duplication or frames
/// of other senders.
pub proof fn lemma_frames_delivered_in_order<C, W, A, P>(s: MuxView<C, W, A, P>, msgs: Seq<Message>)
    requires
        s.wf(),
        frames_from_attached(s, msgs),
    ensures
        serves_all(s, msgs),
        serve(s, msgs).len() == msgs.len(),
        forall|i: int|
            0 <= i < msgs.len() ==> (#[trigger] serve(s, msgs)[i] matches Step::Deliver {
                peer,
                point,
                data,
                reply,
            } && peer == msgs[i]->Request_0.self_id && point == s.points[peer.0] && data
                == msgs[i]->Request_0.kind->Data_0 && reply == Message::Response(
                Response { requestid: msgs[i]->Request_0.requestid, status: true },
            )),
    decreases msgs.len(),
{
    if msgs.len() > 0 {
        let q = msgs[0]->Request_0;
        assert(msgs[0] matches Message::Request(q0) && q0.kind is Data && s.points.contains_key(q0.self_id.0));
        lemma_delivery_round_trip(s, q, q.kind->Data_0);
        let (s1, st) = s.on_message(msgs[0]);
        let rest = msgs.drop_first();
        assert(settle(s1, st) == s);
        assert forall|i: int| 0 <= i < rest.len() implies (#[trigger] rest[i] matches Message::Request(q1)
            && q1.kind is Data && s.points.contains_key(q1.self_id.0)) by {
            assert(rest[i] == msgs[i + 1]);
        }
        lemma_frames_delivered_in_order(s, rest);
        let tail = serve(s, rest);
        assert forall|i: int| 0 < i < msgs.len() implies #[trigger] serve(s, msgs)[i] == tail[i - 1] && msgs[i]
            == rest[i - 1] by {}
    }
}

/// Handling a message and giving back what a delivery lent out leaves the
/// attached channels as they were.
pub proof fn lemma_settled_points_unchanged<C, W, A, P>(s: MuxView<C, W, A, P>, msg: Message)
    requires
        s.wf(),
        s.admits(msg),
    ensures
        settle(s.on_message(msg).0, s.on_message(msg).1).points == s.points,
{
    match msg {
        Message::Request(q) => match q.kind {
            RequestKind::Data(d) => {
                lemma_delivery_round_trip(s, q, d);
            },
            _ => {},
        },
        Message::Response(_) => {},
    }
}

/// In any traffic the worker handles (data frames mixed with connect
/// requests and with answers to its own requests, in any interleaving) every
/// data frame is delivered unchanged, when it arrives, to the channel attached
/// for its own sender and to no other, and is answered positively with its
/// own identifier.  So one sender's frames reach its channel in the order they
/// were sent, without loss, duplication or frames of other senders.
pub proof fn lemma_frames_delivered_in_mixed_traffic<C, W, A, P>(s: MuxView<C, W, A, P>, msgs: Seq<Message>)
    requires
        s.wf(),
        serves_all(s, msgs),
    ensures
        serve(s, msgs).len() == msgs.len(),
        forall|i: int|
            0 <= i < msgs.len() && (#[trigger] msgs[i] matches Message::Request(q) && q.kind is Data) ==> (
            serve(s, msgs)[i] matches Step::Deliver { peer, point, data, reply } && peer
                == msgs[i]->Request_0.self_id && point == s.points[peer.0] && data
                == msgs[i]->Request_0.kind->Data_0 && reply == Message::Response(
                Response { requestid: msgs[i]->Request_0.requestid, status: true },
            )),
    decreases msgs.len(),
{
    if msgs.len() > 0 {
        let (s1, st) = s.on_message(msgs[0]);
        let s2 = settle(s1, st);
        let rest = msgs.drop_first();
        lemma_message_keeps_wf(s, msgs[0]);
        lemma_settled_points_unchanged(s, msgs[0]);
        assert(s2.wf());
        lemma_frames_delivered_in_mixed_traffic(s2, rest);
        if msgs[0] matches Message::Request(q) && q.kind is Data {
            lemma_delivery_round_trip(s, msgs[0]->Request_0, msgs[0]->Request_0.kind->Data_0);
        }
        let tail = serve(s2, rest);
        assert forall|i: int| 0 < i < msgs.len() implies #[trigger] serve(s, msgs)[i] == tail[i - 1] && msgs[i]
            == rest[i - 1] by {}
    }
}

/// Whether `reqs` can be submitted one after the other, with `waiters`.
pub open spec fn can_submit_all<C, W, A, P>(s: MuxView<C, W, A, P>, reqs: Seq<Request>, waiters: Seq<W>) -> bool
    decreases reqs.len(),
{
    if reqs.len() == 0 {
        waiters.len() == 0
    } else {
        &&& waiters.len() == reqs.len()
        &&& s.can_submit(reqs[0])
        &&& can_submit_all(s.after_submit(reqs[0], waiters[0]), reqs.drop_first(), waiters.drop_first())
    }
}

/// The messages that submitting `reqs` one after the other sends.
pub open spec fn forwarded<C, W, A, P>(s: MuxView<C, W, A, P>, reqs: Seq<Request>, waiters: Seq<W>) -> Seq<Message>
    decreases reqs.len(),
{
    if reqs.len() == 0 || waiters.len() == 0 {
        Seq::empty()
    } else {
        seq![Message::Request(reqs[0])] + forwarded(
            s.after_submit(reqs[0], waiters[0]),
            reqs.drop_first(),
            waiters.drop_first(),
        )
    }
}

/// Submitted requests go out unchanged and in the order they were submitted,
/// one message each.
pub proof fn lemma_requests_forwarded_in_order<C, W, A, P>(
    s: MuxView<C, W, A, P>,
    reqs: Seq<Request>,
    waiters: Seq<W>,
)
    requires
        s.wf(),
        can_submit_all(s, reqs, waiters),
    ensures
        forwarded(s, reqs, waiters).len() == reqs.len(),
        forall|i: int|
            0 <= i < reqs.len() ==> #[trigger] forwarded(s, reqs, waiters)[i] == Message::Request(reqs[i]),
    decreases reqs.len(),
{
    if reqs.len() > 0 {
        let s1 = s.after_submit(reqs[0], waiters[0]);
        lemma_requests_forwarded_in_order(s1, reqs.drop_first(), waiters.drop_first());
        let tail = forwarded(s1, reqs.drop_first(), waiters.drop_first());
        assert forall|i: int| 0 < i < reqs.len() implies #[trigger] forwarded(s, reqs, waiters)[i] == tail[i
            - 1] && reqs[i] == reqs.drop_first()[i - 1] by {}
    }
}

/// End to end: data requests that one side builds from the slices its
/// endpoint `from` writes (one request per slice, as `Request::data` does) and
/// submits in order reach the other side, where the slices are delivered
/// unchanged and in the same order to the channel attached for `from`.
pub proof fn lemma_slices_arrive_in_order<C, W, A, P>(
    near: MuxView<C, W, A, P>,
    far: MuxView<C, W, A, P>,
    from: EndPointId,
    slices: Seq<Vec<u8>>,
    reqs: Seq<Request>,
    waiters: Seq<W>,
)
    requires
        near.wf(),
        far.wf(),
        can_submit_all(near, reqs, waiters),
        reqs.len() == slices.len(),
        forall|i: int|
            0 <= i < reqs.len() ==> (#[trigger] reqs[i]).self_id == from && reqs[i].kind
                == RequestKind::Data(slices[i]),
        far.points.contains_key(from.0),
    ensures
        ({
            let msgs = forwarded(near, reqs, waiters);
            &&& serves_all(far, msgs)
            &&& serve(far, msgs).len() == slices.len()
            &&& forall|i: int|
                0 <= i < slices.len() ==> (#[trigger] serve(far, msgs)[i] matches Step::Deliver {
                    peer,
                    point,
                    data,
                    ..
                } && peer == from && point == far.points[from.0] && data == slices[i])
        }),
{
    lemma_requests_forwarded_in_order(near, reqs, waiters);
    let msgs = forwarded(near, reqs, waiters);
    assert forall|i: int| 0 <= i < msgs.len() implies (#[trigger] msgs[i] matches Message::Request(q) && q.kind is Data
        && far.points.contains_key(q.self_id.0)) by {
        assert(msgs[i] == Message::Request(reqs[i]));
    }
    lemma_frames_delivered_in_order(far, msgs);
    assert forall|i: int| 0 <= i < slices.len() implies (#[trigger] serve(far, msgs)[i] matches Step::Deliver {
        peer,
        point,
        data,
        ..
    } && peer == from && point == far.points[from.0] && data == slices[i]) by {
        assert(msgs[i] == Message::Request(reqs[i]));
    }
}

/// End to end, over interleaved traffic: requests of any kind, from any
/// endpoints, submitted in order on the near side go out in that order and
/// reach the far side at increasing positions `pos` among whatever else it
/// receives (its own answers, other requests).  There, every data request is
/// delivered unchanged to the channel attached for its sender and no other, so
/// each endpoint's slices arrive in the order they were written.
pub proof fn lemma_submissions_delivered_in_order<C, W, A, P>(
    near: MuxView<C, W, A, P>,
    far: MuxView<C, W, A, P>,
    reqs: Seq<Request>,
    waiters: Seq<W>,
    msgs: Seq<Message>,
    pos: Seq<int>,
)
    requires
        near.wf(),
        far.wf(),
        can_submit_all(near, reqs, waiters),
        pos.len() == reqs.len(),
        forall|j: int|
            0 <= j < pos.len() ==> 0 <= #[trigger] pos[j] < msgs.len() && msgs[pos[j]] == forwarded(
                near,
                reqs,
                waiters,
            )[j],
        forall|j: int, k: int| 0 <= j < k < pos.len() ==> #[trigger] pos[j] < #[trigger] pos[k],
        serves_all(far, msgs),
    ensures
        forall|j: int|
            0 <= j < reqs.len() && (#[trigger] reqs[j]).kind is Data ==> (serve(far, msgs)[pos[j]] matches Step::Deliver {
                peer,
                point,
                data,
                ..
            } && peer == reqs[j].self_id && point == far.points[peer.0] && data == reqs[j].kind->Data_0),
{
    lemma_requests_forwarded_in_order(near, reqs, waiters);
    lemma_frames_delivered_in_mixed_traffic(far, msgs);
    assert forall|j: int| 0 <= j < reqs.len() && (#[trigger] reqs[j]).kind is Data implies (serve(
        far,
        msgs,
    )[pos[j]] matches Step::Deliver { peer, point, data, .. } && peer == reqs[j].self_id && point
        == far.points[peer.0] && data == reqs[j].kind->Data_0) by {
        assert(msgs[pos[j]] == Message::Request(reqs[j]));
    }
}

/// The two-sided handshake: endpoint `x` on the near side submits a connect
/// request for `t`, for which the far side waits.  The far side pairs `t`,
/// releases its waiter and answers positively; that answer, handled on the
/// near side, releases the requester's waiter with a positive status (so
/// `connect_outcome` gives `Ok`) and pairs `x` with `t`.
pub proof fn lemma_two_sided_handshake<C, W, A, P>(
    near: MuxView<C, W, A, P>,
    far: MuxView<C, W, A, P>,
    x: EndPointId,
    t: EndPointId,
    req: Request,
    near_waiter: W,
    far_waiter: A,
)
    requires
        near.wf(),
        far.wf(),
        near.endpoints.contains_key(x.0),
        near.endpoints[x.0].status is Unconnected,
        req.self_id == x,
        req.kind == RequestKind::Connect(t),
        !near.pending.contains_key(req.requestid.0),
        far.can_accept(t),
        far.endpoints[t.0].status is Unconnected,
    ensures
        ({
            let near1 = near.after_submit(req, near_waiter);
            let far1 = MuxView { accepting: far.accepting.insert(t.0, far_waiter), ..far };
            let reply = Message::Response(Response { requestid: req.requestid, status: true });
            &&& near.can_submit(req)
            &&& far1.admits(Message::Request(req))
            &&& far1.on_message(Message::Request(req)).1 matches Step::Accepted { waiter, reply: r, .. } && waiter
                == far_waiter && r == reply
            &&& far1.on_message(Message::Request(req)).0.endpoints[t.0].spec_target_id() == Some(t)
            &&& near1.admits(reply)
            &&& near1.on_message(reply).1 == Step::<C, W, A, P>::Answered {
                waiter: near_waiter,
                status: true,
                link: Some(Link { channel: near.endpoints[x.0].status->Unconnected_0, endpoint: x, peer: t }),
            }
            &&& near1.on_message(reply).0.endpoints[x.0].spec_target_id() == Some(t)
        }),
{
    lemma_connect_meets_waiting_endpoint(far, t, far_waiter, req);
    lemma_answer_releases_waiter(near, req, near_waiter, true);
}

/// How many slices a transfer sends when its answers have the given
/// statuses: one per positive answer, and the one whose answer was negative.
pub open spec fn slices_sent(statuses: Seq<bool>) -> nat
    decreases statuses.len(),
{
    if statuses.len() == 0 {
        0
    } else if statuses[0] {
        1 + slices_sent(statuses.drop_first())
    } else {
        1
    }
}

/// A transfer sends exactly one data request per written slice, the slices
/// unchanged and in the order they were written, each only after the
/// previous one was answered; after a negative answer it sends nothing more.
pub proof fn lemma_one_request_per_slice(v: TransferView, slices: Seq<Seq<u8>>, statuses: Seq<bool>)
    requires
        v.ready(),
        slices.len() == statuses.len(),
    ensures
        ({
            let w = v.after_slices(slices, statuses);
            &&& w.self_id == v.self_id
            &&& !w.waiting
            &&& slices_sent(statuses) <= slices.len()
            &&& w.sent == v.sent + slices.take(slices_sent(statuses) as int)
            &&& (w.failed <==> exists|i: int| 0 <= i < statuses.len() && !statuses[i])
            &&& (forall|i: int| 0 <= i < statuses.len() ==> statuses[i]) ==> slices_sent(statuses)
                == slices.len()
        }),
    decreases slices.len(),
{
    if slices.len() > 0 {
        let v1 = v.after_send(slices[0]).after_answer(statuses[0]);
        let rest = slices.drop_first();
        let rest_st = statuses.drop_first();
        if statuses[0] {
            lemma_one_request_per_slice(v1, rest, rest_st);
            let n = slices_sent(rest_st);
            assert(v.sent.push(slices[0]) + rest.take(n as int) =~= v.sent + slices.take(n + 1 as int));
            if exists|i: int| 0 <= i < statuses.len() && !statuses[i] {
                let i = choose|i: int| 0 <= i < statuses.len() && !statuses[i];
                assert(!rest_st[i - 1]);
            }
            if exists|i: int| 0 <= i < rest_st.len() && !rest_st[i] {
                let i = choose|i: int| 0 <= i < rest_st.len() && !rest_st[i];
                assert(!statuses[i + 1]);
            }
            if forall|i: int| 0 <= i < statuses.len() ==> statuses[i] {
                assert forall|i: int| 0 <= i < rest_st.len() implies rest_st[i] by {
                    assert(statuses[i + 1]);
                }
            }
        } else {
            assert(v1.after_slices(rest, rest_st) == v1);
            assert(v.sent.push(slices[0]) =~= v.sent + slices.take(1));
            assert(0 <= 0 < statuses.len() && !statuses[0]);
        }
    } else {
        assert(v.sent + slices.take(0) =~= v.sent);
    }
}

/// An unconnected endpoint cannot get a data request through: writes to it
/// cause no traffic on the shared stream.
pub proof fn lemma_unconnected_endpoint_sends_no_data<C, W, A, P>(s: MuxView<C, W, A, P>, req: Request)
    requires
        s.endpoints.contains_key(req.self_id.0),
        s.endpoints[req.self_id.0].status is Unconnected,
        req.kind is Data,
    ensures
        !s.can_submit(req),
{
}

/// One event of the worker's life, as the caller brings it about.
pub enum Event<C, W, A, P> {
    /// `new_endpoint`.
    Register(EndPointId, C),
    /// `wait_accept`.
    WaitAccept(EndPointId, A),
    /// `attach_point`.
    Attach(EndPointId, P),
    /// `submit`.
    Submit(Request, W),
    /// `on_message`.
    Receive(Message),
}

/// The state after an event, and the messages it writes to the shared
/// stream: the submitted request, or the reply to a received message.
pub open spec fn apply<C, W, A, P>(s: MuxView<C, W, A, P>, e: Event<C, W, A, P>) -> (MuxView<C, W, A, P>, Seq<Message>) {
    match e {
        Event::Register(id, channel) => (
            if s.is_registered(id) { s } else { s.after_register(id, channel) },
            Seq::empty(),
        ),
        Event::WaitAccept(id, waiter) => (MuxView { accepting: s.accepting.insert(id.0, waiter), ..s }, Seq::empty()),
        Event::Attach(peer, point) => (MuxView { points: s.points.insert(peer.0, point), ..s }, Seq::empty()),
        Event::Submit(req, waiter) => (s.after_submit(req, waiter), seq![Message::Request(req)]),
        Event::Receive(msg) => (
            s.on_message(msg).0,
            match reply_of(s.on_message(msg).1) {
                Some(reply) => seq![reply],
                None => Seq::empty(),
            },
        ),
    }
}

/// Everything a sequence of events writes to the shared stream, in order.
pub open spec fn written<C, W, A, P>(s: MuxView<C, W, A, P>, events: Seq<Event<C, W, A, P>>) -> Seq<Message>
    decreases events.len(),
{
    if events.len() == 0 {
        Seq::empty()
    } else {
        apply(s, events[0]).1 + written(apply(s, events[0]).0, events.drop_first())
    }
}

/// Only submitted requests and replies to received messages reach the
/// stream: as long as no request is submitted and nothing arrives from the
/// other side, registering endpoints, waiting for peers and attaching
/// channels write nothing.
pub proof fn lemma_no_traffic_without_requests<C, W, A, P>(s: MuxView<C, W, A, P>, events: Seq<Event<C, W, A, P>>)
    requires
        forall|i: int| 0 <= i < events.len() ==> !(#[trigger] events[i] is Submit) && !(events[i] is Receive),
    ensures
        written(s, events) == Seq::<Message>::empty(),
    decreases events.len(),
{
    if events.len() > 0 {
        let rest = events.drop_first();
        assert forall|i: int| 0 <= i < rest.len() implies !(#[trigger] rest[i] is Submit) && !(rest[i] is Receive) by {
            assert(rest[i] == events[i + 1]);
        }
        lemma_no_traffic_without_requests(apply(s, events[0]).0, rest);
        assert(apply(s, events[0]).1 =~= Seq::<Message>::empty());
        assert(written(s, events) =~= Seq::<Message>::empty());
    }
}

/// Whether the library accepts event `e` in state `s`: the condition that the
/// caller tests before the corresponding call.
pub open spec fn event_ok<C, W, A, P>(s: MuxView<C, W, A, P>, e: Event<C, W, A, P>) -> bool {
    match e {
        Event::Register(..) => true,
        Event::WaitAccept(id, _) => s.can_accept(id),
        Event::Attach(..) => true,
        Event::Submit(req, _) => s.can_submit(req),
        Event::Receive(msg) => s.admits(msg),
    }
}

/// Whether every event is accepted in the state it meets.
pub open spec fn valid_run<C, W, A, P>(s: MuxView<C, W, A, P>, events: Seq<Event<C, W, A, P>>) -> bool
    decreases events.len(),
{
    if events.len() == 0 {
        true
    } else {
        event_ok(s, events[0]) && valid_run(apply(s, events[0]).0, events.drop_first())
    }
}

/// Whether no endpoint is paired yet; true of the state `MuxState::new` makes.
pub open spec fn none_paired<C, W, A, P>(s: MuxView<C, W, A, P>) -> bool {
    forall|k: usize| #[trigger] s.endpoints.contains_key(k) ==> !(s.endpoints[k].status is Connected)
}

/// Nothing reaches the stream before some endpoint pairs: starting with no
/// endpoint paired (as a new state is), as long as no endpoint asks to
/// connect and nothing arrives from the other side, every request the
/// library accepts is refused for want of a peer, and registering endpoints,
/// waiting for peers and attaching channels write nothing.
pub proof fn lemma_no_traffic_before_pairing<C, W, A, P>(s: MuxView<C, W, A, P>, events: Seq<Event<C, W, A, P>>)
    requires
        none_paired(s),
        valid_run(s, events),
        forall|i: int|
            0 <= i < events.len() ==> !(#[trigger] events[i] is Receive) && !(events[i] matches Event::Submit(
                q,
                _,
            ) && q.kind is Connect),
    ensures
        written(s, events) == Seq::<Message>::empty(),
        forall|i: int| 0 <= i < events.len() ==> !(#[trigger] events[i] is Submit),
    decreases events.len(),
{
    if events.len() > 0 {
        let e = events[0];
        let s1 = apply(s, e).0;
        let rest = events.drop_first();
        assert(!(e is Submit)) by {
            if let Event::Submit(q, _) = e {
                assert(s.can_submit(q));
            }
        }
        assert(none_paired(s1)) by {
            assert forall|k: usize| #[trigger] s1.endpoints.contains_key(k) implies !(s1.endpoints[k].status is Connected) by {
                if s.endpoints.contains_key(k) {
                } else {
                }
            }
        }
        assert forall|i: int| 0 <= i < rest.len() implies !(#[trigger] rest[i] is Receive) && !(rest[i] matches Event::Submit(
            q,
            _,
        ) && q.kind is Connect) by {
            assert(rest[i] == events[i + 1]);
        }
        lemma_no_traffic_before_pairing(s1, rest);
        assert(apply(s, e).1 =~= Seq::<Message>::empty());
        assert(written(s, events) =~= Seq::<Message>::empty());
        assert forall|i: int| 0 <= i < events.len() implies !(#[trigger] events[i] is Submit) by {
            if i > 0 {
                assert(events[i] == rest[i - 1]);
            }
        }
    }
}

/// The state the worker is in after handling `msgs`, giving back what each
/// delivery lent out.
pub open spec fn served<C, W, A, P>(s: MuxView<C, W, A, P>, msgs: Seq<Message>) -> MuxView<C, W, A, P>
    decreases msgs.len(),
{
    if msgs.len() == 0 {
        s
    } else {
        served(settle(s.on_message(msgs[0]).0, s.on_message(msgs[0]).1), msgs.drop_first())
    }
}

/// Pairing is permanent over any traffic: an endpoint that is no longer
/// unconnected stays exactly as it was, so it keeps its target and keeps
/// refusing to connect or accept, however many messages follow.
pub proof fn lemma_pairing_survives_traffic<C, W, A, P>(s: MuxView<C, W, A, P>, msgs: Seq<Message>, k: usize)
    requires
        s.wf(),
        serves_all(s, msgs),
        s.endpoints.contains_key(k),
        !(s.endpoints[k].status is Unconnected),
    ensures
        served(s, msgs).wf(),
        served(s, msgs).endpoints.contains_key(k),
        served(s, msgs).endpoints[k] == s.endpoints[k],
    decreases msgs.len(),
{
    if msgs.len() > 0 {
        let (s1, st) = s.on_message(msgs[0]);
        lemma_message_keeps_wf(s, msgs[0]);
        lemma_pairing_is_permanent(s, msgs[0], k);
        lemma_endpoints_persist(s, msgs[0], arbitrary(), arbitrary());
        assert(s1.endpoints.dom().contains(k));
        lemma_pairing_survives_traffic(settle(s1, st), msgs.drop_first(), k);
    }
}

/// A refused connect can be retried: after a negative answer the requester
/// is exactly as it was (still unconnected, so `connect` gives a new request)
/// and nothing is left pending, so a new connect request under an identifier
/// that is not pending can be submitted, and the handshake then succeeds once
/// the other side waits (`lemma_two_sided_handshake`).
pub proof fn lemma_refused_connect_can_be_retried<C, W, A, P>(
    s: MuxView<C, W, A, P>,
    req: Request,
    waiter: W,
    retry: Request,
)
    requires
        s.wf(),
        s.can_submit(req),
        req.kind is Connect,
        s.endpoints[req.self_id.0].status is Unconnected,
        retry.self_id == req.self_id,
        retry.kind is Connect,
        !s.pending.contains_key(retry.requestid.0),
    ensures
        ({
            let answer = Message::Response(Response { requestid: req.requestid, status: false });
            let s2 = s.after_submit(req, waiter).on_message(answer).0;
            &&& s.after_submit(req, waiter).admits(answer)
            &&& s2.wf()
            &&& s2.endpoints[req.self_id.0] == s.endpoints[req.self_id.0]
            &&& s2.endpoints[req.self_id.0].status is Unconnected
            &&& s2.pending == s.pending
            &&& s2.can_submit(retry)
        }),
{
    lemma_answer_releases_waiter(s, req, waiter, false);
    let s1 = s.after_submit(req, waiter);
    let answer = Message::Response(Response { requestid: req.requestid, status: false });
    lemma_message_keeps_wf(s1, answer);
    lemma_endpoints_persist(s1, answer, req, waiter);
    assert(s1.on_message(answer).0.endpoints.dom().contains(req.self_id.0));
}

/// Which connect requests the worker handles: exactly those whose target is
/// not waiting for a peer, or is waiting and still unconnected.  A connect
/// request for an endpoint that does not wait (for instance one that comes
/// before the endpoint called accept, or names no endpoint at all) is handled
/// by answering it negatively with its own identifier, changing nothing, so
/// the requester can retry.
pub proof fn lemma_connect_requests_admitted<C, W, A, P>(s: MuxView<C, W, A, P>, req: Request, target: EndPointId)
    requires
        s.wf(),
        req.kind == RequestKind::Connect(target),
    ensures
        s.admits(Message::Request(req)) <==> (!s.accepting.contains_key(target.0)
            || s.endpoints[target.0].status is Unconnected),
        !s.accepting.contains_key(target.0) ==> s.on_message(Message::Request(req)) == (
            s,
            Step::<C, W, A, P>::Refused {
                reply: Message::Response(Response { requestid: req.requestid, status: false }),
            },
        ),
{
}

/// An answer from the other side touches only the request it answers and
/// its requester: every endpoint that waits for a peer keeps waiting with the
/// same waiter, the attached channels stay, and the other pending requests
/// stay pending.
pub proof fn lemma_answer_keeps_waiting_endpoints<C, W, A, P>(s: MuxView<C, W, A, P>, resp: Response)
    requires
        s.wf(),
        s.admits(Message::Response(resp)),
    ensures
        s.on_message(Message::Response(resp)).0.accepting == s.accepting,
        s.on_message(Message::Response(resp)).0.points == s.points,
        s.on_message(Message::Response(resp)).0.pending == s.pending.remove(resp.requestid.0),
        forall|k: usize|
            #![trigger s.endpoints.contains_key(k)]
            s.endpoints.contains_key(k) && k != s.pending[resp.requestid.0].owner.0 ==> s.on_message(
                Message::Response(resp),
            ).0.endpoints[k] == s.endpoints[k],
{
}

/// Which requests can be submitted: a connect request from any known
/// endpoint, and any other request from a known endpoint that has a target,
/// whatever that target is, provided its identifier is not pending.
pub proof fn lemma_submission_condition<C, W, A, P>(s: MuxView<C, W, A, P>, req: Request)
    ensures
        s.can_submit(req) <==> (s.endpoints.contains_key(req.self_id.0) && !s.pending.contains_key(
            req.requestid.0,
        ) && (req.kind is Connect || s.endpoints[req.self_id.0].status is Connected)),
{
}

/// An endpoint paired by the handshake (the accepting side) can send data at
/// once: a data request from it under an identifier that is not pending can
/// be submitted.
pub proof fn lemma_accepted_endpoint_can_send<C, W, A, P>(
    s: MuxView<C, W, A, P>,
    connect: Request,
    t: EndPointId,
    data: Request,
)
    requires
        s.wf(),
        connect.kind == RequestKind::Connect(t),
        s.accepting.contains_key(t.0),
        s.endpoints[t.0].status is Unconnected,
        data.self_id == t,
        data.kind is Data,
        !s.pending.contains_key(data.requestid.0),
    ensures
        s.on_message(Message::Request(connect)).1 is Accepted,
        s.on_message(Message::Request(connect)).0.can_submit(data),
{
}

/// Which endpoints can start waiting for a peer: every known endpoint that
/// does not wait already, whatever other endpoints wait; and one endpoint
/// starting to wait changes this for no other endpoint.
pub proof fn lemma_accept_condition<C, W, A, P>(s: MuxView<C, W, A, P>, id: EndPointId, other: EndPointId, waiter: A)
    ensures
        s.can_accept(id) <==> (s.endpoints.contains_key(id.0) && !s.accepting.contains_key(id.0)),
        other.0 != id.0 ==> ((MuxView { accepting: s.accepting.insert(other.0, waiter), ..s }).can_accept(id)
            <==> s.can_accept(id)),
{
}

} // verus!
