use multiplex_stream::{EndPointId, MStreamError, RequestKind, Transfer};

#[test]
fn one_request_per_slice_in_order() {
    let mut t = Transfer::new(EndPointId(4));
    let mut sent = Vec::new();
    for slice in [vec![1u8], vec![2u8, 3u8], vec![4u8]] {
        assert!(t.is_ready());
        let req = t.send(slice.clone());
        assert!(!t.is_ready());
        assert!(t.is_waiting());
        assert_eq!(req.self_id, EndPointId(4));
        match req.kind {
            RequestKind::Data(d) => sent.push(d),
            _ => panic!("a slice is sent as data"),
        }
        assert_eq!(t.answer(true), Ok(()));
    }
    assert_eq!(sent, vec![vec![1u8], vec![2u8, 3u8], vec![4u8]]);
    assert!(t.is_ready());
}

#[test]
fn negative_answer_stops_the_transfer() {
    let mut t = Transfer::new(EndPointId(4));
    t.send(vec![1u8]);
    assert_eq!(t.answer(false), Err(MStreamError::TransferFailed));
    assert!(!t.is_ready());
}
