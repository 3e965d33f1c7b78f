use multiplex_stream::{EndPointId, InnerEndPoint, MStreamError, RequestKind};

#[test]
fn new_endpoint_is_unconnected() {
    let ep = InnerEndPoint::new(EndPointId(3), "channel");
    assert_eq!(ep.self_id(), EndPointId(3));
    assert!(ep.is_unconnected());
    assert_eq!(ep.target_id(), None);
}

#[test]
fn unconnected_endpoint_may_connect_and_accept() {
    let ep = InnerEndPoint::new(EndPointId(3), ());
    let req = ep.connect(EndPointId(8)).unwrap();
    assert_eq!(req.self_id, EndPointId(3));
    assert!(matches!(req.kind, RequestKind::Connect(EndPointId(8))));
    assert_eq!(ep.accept(), Ok(()));
}

#[test]
fn set_connect_hands_out_the_channel() {
    let mut ep = InnerEndPoint::new(EndPointId(1), vec![7u8]);
    let channel = ep.set_connect(EndPointId(2));
    assert_eq!(channel, vec![7u8]);
    assert_eq!(ep.self_id(), EndPointId(1));
    assert_eq!(ep.target_id(), Some(EndPointId(2)));
    assert!(!ep.is_unconnected());
}

#[test]
fn paired_endpoint_refuses_connect_and_accept() {
    let mut ep = InnerEndPoint::new(EndPointId(1), ());
    ep.set_connect(EndPointId(2));
    assert!(matches!(ep.connect(EndPointId(4)), Err(MStreamError::NotUnconnected)));
    assert_eq!(ep.accept(), Err(MStreamError::NotUnconnected));
}

#[test]
fn endpoint_keeps_its_id_through_operations() {
    let mut ep = InnerEndPoint::new(EndPointId(9), ());
    let _ = ep.connect(EndPointId(1));
    let _ = ep.accept();
    ep.set_connect(EndPointId(1));
    let _ = ep.connect(EndPointId(2));
    let _ = ep.accept();
    assert_eq!(ep.self_id(), EndPointId(9));
    assert_eq!(ep.target_id(), Some(EndPointId(1)));
    assert!(!ep.is_unconnected());
}
