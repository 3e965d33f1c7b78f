use multiplex_stream::{
    connect_outcome, transfer_outcome, EndPointId, MStreamError, Request, RequestId, RequestKind,
};

#[test]
fn response_carries_request_id_and_status() {
    let req = Request { requestid: RequestId(7), self_id: EndPointId(1), kind: RequestKind::Disconnect };
    let ok = req.response(true);
    assert_eq!(ok.requestid, RequestId(7));
    assert!(ok.status);
    let refused = req.response(false);
    assert_eq!(refused.requestid, RequestId(7));
    assert!(!refused.status);
}

#[test]
fn connect_request_names_sender_and_target() {
    let req = Request::connect(EndPointId(3), EndPointId(4));
    assert_eq!(req.self_id, EndPointId(3));
    assert!(matches!(req.kind, RequestKind::Connect(EndPointId(4))));
}

#[test]
fn data_request_carries_the_bytes() {
    let req = Request::data(EndPointId(2), vec![1, 2, 3]);
    assert_eq!(req.self_id, EndPointId(2));
    match req.kind {
        RequestKind::Data(d) => assert_eq!(d, vec![1, 2, 3]),
        _ => panic!("not a data request"),
    }
}

#[test]
fn connect_outcome_follows_status() {
    assert_eq!(connect_outcome(true), Ok(()));
    assert_eq!(connect_outcome(false), Err(MStreamError::ConnectFailed));
}

#[test]
fn transfer_outcome_follows_status() {
    assert_eq!(transfer_outcome(true), Ok(()));
    assert_eq!(transfer_outcome(false), Err(MStreamError::TransferFailed));
}
