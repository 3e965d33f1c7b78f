use multiplex_stream::{
    EndPointId, Link, MStreamError, Message, MuxState, Request, RequestId, RequestKind, Response,
    Step,
};

type State = MuxState<&'static str, u32, u8, Vec<u8>>;

fn response(id: usize, status: bool) -> Message {
    Message::Response(Response { requestid: RequestId(id), status })
}

fn request(id: usize, from: usize, kind: RequestKind) -> Message {
    Message::Request(Request { requestid: RequestId(id), self_id: EndPointId(from), kind })
}

fn reply_of(step: &Step<&'static str, u32, u8, Vec<u8>>) -> (usize, bool) {
    let reply = match step {
        Step::Accepted { reply, .. } => reply,
        Step::Refused { reply } => reply,
        Step::Deliver { reply, .. } => reply,
        Step::Answered { .. } => panic!("an answer has no reply"),
    };
    match reply {
        Message::Response(r) => (r.requestid.0, r.status),
        Message::Request(_) => panic!("a reply is a response"),
    }
}

#[test]
fn endpoint_id_is_taken_once() {
    let mut s = State::new();
    assert!(!s.is_registered(EndPointId(1)));
    assert_eq!(s.new_endpoint(EndPointId(1), "a"), Ok(()));
    assert!(s.is_registered(EndPointId(1)));
    assert_eq!(s.new_endpoint(EndPointId(1), "b"), Err(MStreamError::EndPointExists));
    assert_eq!(s.new_endpoint(EndPointId(2), "b"), Ok(()));
}

#[test]
fn handshake_pairs_waiting_endpoint() {
    let mut s = State::new();
    s.new_endpoint(EndPointId(1), "inner1").unwrap();
    assert_eq!(s.accept(EndPointId(1)), Ok(()));
    assert!(s.can_accept(EndPointId(1)));
    s.wait_accept(EndPointId(1), 42);
    assert!(!s.can_accept(EndPointId(1)));
    let msg = request(9, 6, RequestKind::Connect(EndPointId(1)));
    assert!(s.admits(&msg));
    let step = s.on_message(msg);
    assert_eq!(reply_of(&step), (9, true));
    match step {
        Step::Accepted { link: Link { channel, endpoint, peer }, waiter, .. } => {
            assert_eq!(channel, "inner1");
            assert_eq!(endpoint, EndPointId(1));
            assert_eq!(peer, EndPointId(6));
            assert_eq!(waiter, 42);
        },
        _ => panic!("expected the waiting endpoint to be paired"),
    }
    assert_eq!(s.target_id(EndPointId(1)), Some(EndPointId(1)));
    assert_eq!(s.accept(EndPointId(1)), Err(MStreamError::NotUnconnected));
    assert!(s.can_accept(EndPointId(1)));
}

#[test]
fn connect_without_waiter_is_refused() {
    let mut s = State::new();
    s.new_endpoint(EndPointId(1), "inner1").unwrap();
    let step = s.on_message(request(3, 2, RequestKind::Connect(EndPointId(1))));
    assert!(matches!(step, Step::Refused { .. }));
    assert_eq!(reply_of(&step), (3, false));
    assert_eq!(s.target_id(EndPointId(1)), None);
    let unknown = s.on_message(request(4, 2, RequestKind::Connect(EndPointId(77))));
    assert_eq!(reply_of(&unknown), (4, false));
}

#[test]
fn answer_releases_the_submitted_waiter() {
    let mut s = State::new();
    s.new_endpoint(EndPointId(2), "inner2").unwrap();
    let req = s.connect(EndPointId(2), EndPointId(5)).unwrap();
    let rid = req.requestid.0;
    assert!(s.can_submit(&req));
    let msg = s.submit(req, 100);
    match &msg {
        Message::Request(r) => {
            assert_eq!(r.requestid.0, rid);
            assert!(matches!(r.kind, RequestKind::Connect(EndPointId(5))));
        },
        Message::Response(_) => panic!("a submitted request is sent as a request"),
    }
    let answer = response(rid, true);
    assert!(s.admits(&answer));
    match s.on_message(answer) {
        Step::Answered { waiter, status, link: Some(Link { channel, endpoint, peer }) } => {
            assert_eq!(waiter, 100);
            assert!(status);
            assert_eq!(channel, "inner2");
            assert_eq!(endpoint, EndPointId(2));
            assert_eq!(peer, EndPointId(5));
        },
        _ => panic!("expected the waiter to be released with a pairing"),
    }
    assert_eq!(s.target_id(EndPointId(2)), Some(EndPointId(5)));
    assert!(!s.admits(&response(rid, true)));
    assert!(s.connect(EndPointId(2), EndPointId(6)).is_err());
    assert_eq!(s.new_endpoint(EndPointId(2), "again"), Err(MStreamError::EndPointExists));
}

#[test]
fn negative_answer_leaves_requester_unconnected() {
    let mut s = State::new();
    s.new_endpoint(EndPointId(2), "inner2").unwrap();
    let req = Request { requestid: RequestId(11), self_id: EndPointId(2), kind: RequestKind::Connect(EndPointId(5)) };
    s.submit(req, 1);
    match s.on_message(response(11, false)) {
        Step::Answered { waiter, status, link } => {
            assert_eq!(waiter, 1);
            assert!(!status);
            assert!(link.is_none());
        },
        _ => panic!("expected an answer"),
    }
    assert_eq!(s.target_id(EndPointId(2)), None);
    assert!(!s.admits(&response(11, false)));
}

#[test]
fn refused_connect_can_be_retried() {
    let mut requester = State::new();
    let mut acceptor = State::new();
    requester.new_endpoint(EndPointId(1), "near").unwrap();
    acceptor.new_endpoint(EndPointId(1), "far").unwrap();

    let first = requester.connect(EndPointId(1), EndPointId(1)).unwrap();
    let sent = requester.submit(first, 10);
    let step = acceptor.on_message(sent);
    let reply = match step {
        Step::Refused { reply } => reply,
        _ => panic!("nobody waits yet"),
    };
    match requester.on_message(reply) {
        Step::Answered { waiter, status, link } => {
            assert_eq!(waiter, 10);
            assert!(!status);
            assert!(link.is_none());
        },
        _ => panic!("expected an answer"),
    }
    assert_eq!(requester.target_id(EndPointId(1)), None);

    acceptor.wait_accept(EndPointId(1), 7);
    let second = requester.connect(EndPointId(1), EndPointId(1)).unwrap();
    let sent = requester.submit(second, 11);
    let reply = match acceptor.on_message(sent) {
        Step::Accepted { waiter, reply, .. } => {
            assert_eq!(waiter, 7);
            reply
        },
        _ => panic!("the waiting endpoint should be paired"),
    };
    match requester.on_message(reply) {
        Step::Answered { waiter, status, link: Some(link) } => {
            assert_eq!(waiter, 11);
            assert!(status);
            assert_eq!(link.channel, "near");
            assert_eq!(link.peer, EndPointId(1));
        },
        _ => panic!("expected a positive answer with a pairing"),
    }
    assert_eq!(requester.target_id(EndPointId(1)), Some(EndPointId(1)));
    assert_eq!(acceptor.target_id(EndPointId(1)), Some(EndPointId(1)));
}

#[test]
fn data_answer_leaves_connected_requester_alone() {
    let mut s = State::new();
    s.new_endpoint(EndPointId(2), "inner2").unwrap();
    s.submit(Request { requestid: RequestId(1), self_id: EndPointId(2), kind: RequestKind::Connect(EndPointId(5)) }, 1);
    s.on_message(response(1, true));
    let data = Request::data(EndPointId(2), vec![9]);
    let rid = data.requestid.0;
    assert!(s.can_submit(&data));
    s.submit(data, 2);
    match s.on_message(response(rid, true)) {
        Step::Answered { waiter, status, link } => {
            assert_eq!(waiter, 2);
            assert!(status);
            assert!(link.is_none());
        },
        _ => panic!("expected an answer"),
    }
    assert_eq!(s.target_id(EndPointId(2)), Some(EndPointId(5)));
}

#[test]
fn data_is_delivered_to_the_attached_point() {
    let mut s = State::new();
    let msg = request(21, 5, RequestKind::Data(vec![1, 2]));
    assert!(!s.admits(&msg));
    s.attach_point(EndPointId(5), vec![0]);
    assert!(s.admits(&msg));
    let step = s.on_message(msg);
    assert_eq!(reply_of(&step), (21, true));
    match step {
        Step::Deliver { peer, point, data, .. } => {
            assert_eq!(peer, EndPointId(5));
            assert_eq!(point, vec![0]);
            assert_eq!(data, vec![1, 2]);
            s.attach_point(peer, point);
        },
        _ => panic!("expected a delivery"),
    }
    assert!(s.admits(&request(22, 5, RequestKind::Data(vec![3]))));
}

#[test]
fn unsupported_messages_are_not_admitted() {
    let mut s = State::new();
    s.new_endpoint(EndPointId(1), "inner1").unwrap();
    assert!(!s.admits(&request(1, 1, RequestKind::Disconnect)));
    assert!(!s.admits(&response(12345, true)));
}

#[test]
fn submission_needs_a_known_addressed_sender_and_fresh_id() {
    let mut s = State::new();
    let orphan = Request::connect(EndPointId(9), EndPointId(1));
    assert!(!s.can_submit(&orphan));
    s.new_endpoint(EndPointId(2), "inner2").unwrap();
    let unaddressed = Request::data(EndPointId(2), vec![1]);
    assert!(!s.can_submit(&unaddressed));
    let first = Request { requestid: RequestId(5), self_id: EndPointId(2), kind: RequestKind::Connect(EndPointId(3)) };
    s.submit(first, 0);
    let again = Request { requestid: RequestId(5), self_id: EndPointId(2), kind: RequestKind::Connect(EndPointId(3)) };
    assert!(!s.can_submit(&again));
}

#[test]
fn frames_are_delivered_in_order_to_their_senders() {
    let mut s = State::new();
    s.attach_point(EndPointId(5), vec![5]);
    s.attach_point(EndPointId(6), vec![6]);
    let frames = vec![(30, 5, vec![1u8]), (31, 6, vec![9u8]), (32, 5, vec![2u8]), (33, 5, vec![3u8])];
    let mut seen_by_5: Vec<Vec<u8>> = Vec::new();
    for (id, from, data) in frames {
        let step = s.on_message(request(id, from, RequestKind::Data(data.clone())));
        assert_eq!(reply_of(&step), (id, true));
        match step {
            Step::Deliver { peer, point, data: delivered, .. } => {
                assert_eq!(peer, EndPointId(from));
                assert_eq!(point, vec![from as u8]);
                assert_eq!(delivered, data);
                if from == 5 {
                    seen_by_5.push(delivered);
                }
                s.attach_point(peer, point);
            },
            _ => panic!("expected a delivery"),
        }
    }
    assert_eq!(seen_by_5, vec![vec![1u8], vec![2u8], vec![3u8]]);
}

#[test]
fn submitted_requests_are_forwarded_in_order() {
    let mut s = State::new();
    s.new_endpoint(EndPointId(1), "inner1").unwrap();
    let mut sent = Vec::new();
    for id in 0..3usize {
        let req = Request { requestid: RequestId(id), self_id: EndPointId(1), kind: RequestKind::Connect(EndPointId(id + 10)) };
        match s.submit(req, id as u32) {
            Message::Request(r) => sent.push((r.requestid.0, r.kind)),
            Message::Response(_) => panic!("a submitted request is sent as a request"),
        }
    }
    assert_eq!(sent.len(), 3);
    for (i, (rid, kind)) in sent.into_iter().enumerate() {
        assert_eq!(rid, i);
        assert!(matches!(kind, RequestKind::Connect(EndPointId(t)) if t == i + 10));
    }
}

#[test]
fn data_frames_mixed_with_other_traffic_arrive_in_order() {
    let mut s = State::new();
    s.new_endpoint(EndPointId(1), "inner1").unwrap();
    s.new_endpoint(EndPointId(2), "inner2").unwrap();
    s.wait_accept(EndPointId(1), 3);
    s.submit(Request { requestid: RequestId(50), self_id: EndPointId(2), kind: RequestKind::Connect(EndPointId(8)) }, 4);
    s.attach_point(EndPointId(7), vec![7]);
    let traffic = vec![
        request(60, 7, RequestKind::Data(vec![1])),
        request(61, 8, RequestKind::Connect(EndPointId(1))),
        request(62, 7, RequestKind::Data(vec![2])),
        response(50, true),
        request(63, 7, RequestKind::Data(vec![3])),
    ];
    let mut delivered = Vec::new();
    for msg in traffic {
        assert!(s.admits(&msg));
        match s.on_message(msg) {
            Step::Deliver { peer, point, data, .. } => {
                assert_eq!(peer, EndPointId(7));
                assert_eq!(point, vec![7]);
                delivered.push(data);
                s.attach_point(peer, point);
            },
            Step::Accepted { waiter, .. } => assert_eq!(waiter, 3),
            Step::Answered { waiter, status, .. } => {
                assert_eq!(waiter, 4);
                assert!(status);
            },
            Step::Refused { .. } => panic!("nothing here is refused"),
        }
    }
    assert_eq!(delivered, vec![vec![1u8], vec![2u8], vec![3u8]]);
}

#[test]
fn nothing_is_sent_before_pairing() {
    let mut s = State::new();
    s.new_endpoint(EndPointId(1), "inner1").unwrap();
    s.wait_accept(EndPointId(1), 0);
    s.attach_point(EndPointId(5), vec![]);
    let data = Request::data(EndPointId(1), vec![1]);
    assert!(!s.can_submit(&data));
    let teardown = Request { requestid: RequestId(2), self_id: EndPointId(1), kind: RequestKind::Disconnect };
    assert!(!s.can_submit(&teardown));
}
