use peer_router::{RouterSocket, SocketError};

fn frame(text: &str) -> Vec<u8> {
    text.as_bytes().to_vec()
}

fn message(frames: &[&str]) -> Vec<Vec<u8>> {
    frames.iter().map(|f| frame(f)).collect()
}

#[test]
fn registered_peer_gets_the_payload_without_the_address() {
    let mut router = RouterSocket::new(8);
    assert_eq!(router.register(frame("A")), Ok(()));
    assert_eq!(router.send_multipart(message(&["A", "hello"])), Ok(()));
    assert_eq!(router.pull_outbound(&frame("A")), Some(message(&["hello"])));
    assert_eq!(router.pull_outbound(&frame("A")), None);
}

#[test]
fn send_to_unregistered_peer_is_destination_not_found() {
    let mut router = RouterSocket::new(8);
    assert_eq!(
        router.send_multipart(message(&["B", "hi"])),
        Err(SocketError::DestinationNotFound)
    );
    assert_eq!(router.peer_count(), 0);
    assert!(!router.has_peer(&frame("B")));
}

#[test]
fn recv_with_no_inbound_data_is_no_message() {
    let mut router = RouterSocket::new(8);
    assert_eq!(router.recv_multipart(), Err(SocketError::NoMessage));
    assert_eq!(router.register(frame("A")), Ok(()));
    assert_eq!(router.register(frame("B")), Ok(()));
    assert_eq!(router.recv_multipart(), Err(SocketError::NoMessage));
    assert_eq!(router.peer_count(), 2);
}

#[test]
fn sends_to_one_peer_are_pulled_in_sent_order() {
    let mut router = RouterSocket::new(16);
    assert_eq!(router.register(frame("worker")), Ok(()));
    assert_eq!(router.register(frame("other")), Ok(()));
    for n in 0..10u8 {
        let sent = vec![frame("worker"), vec![n], vec![n, n]];
        assert_eq!(router.send_multipart(sent), Ok(()));
    }
    for n in 0..10u8 {
        assert_eq!(router.pull_outbound(&frame("worker")), Some(vec![vec![n], vec![n, n]]));
    }
    assert_eq!(router.pull_outbound(&frame("worker")), None);
    assert_eq!(router.pull_outbound(&frame("other")), None);
}

#[test]
fn send_without_payload_is_invalid_for_any_destination() {
    let mut router = RouterSocket::new(8);
    assert_eq!(router.register(frame("A")), Ok(()));
    assert_eq!(router.send_multipart(message(&["A"])), Err(SocketError::InvalidMessage));
    assert_eq!(router.send_multipart(message(&["nobody"])), Err(SocketError::InvalidMessage));
    assert_eq!(router.send_multipart(Vec::new()), Err(SocketError::InvalidMessage));
    assert_eq!(router.pull_outbound(&frame("A")), None);
}

#[test]
fn send_to_absent_identity_touches_no_queue() {
    let mut router = RouterSocket::new(8);
    assert_eq!(router.register(frame("A")), Ok(()));
    assert_eq!(router.send_multipart(message(&["A", "kept"])), Ok(()));
    assert_eq!(router.push_inbound(&frame("A"), message(&["waiting"])), Ok(()));
    assert_eq!(
        router.send_multipart(message(&["ghost", "lost"])),
        Err(SocketError::DestinationNotFound)
    );
    assert_eq!(router.peer_count(), 1);
    assert_eq!(router.pull_outbound(&frame("A")), Some(message(&["kept"])));
    assert_eq!(router.pull_outbound(&frame("A")), None);
    assert_eq!(router.recv_multipart(), Ok(message(&["A", "waiting"])));
    assert_eq!(router.recv_multipart(), Err(SocketError::NoMessage));
}

#[test]
fn closed_router_is_empty_and_refuses_everything() {
    let mut router = RouterSocket::new(8);
    assert_eq!(router.register(frame("A")), Ok(()));
    assert_eq!(router.register(frame("B")), Ok(()));
    assert_eq!(router.push_inbound(&frame("A"), message(&["pending"])), Ok(()));
    assert!(router.is_accepting());
    router.close();
    assert!(!router.is_accepting());
    assert_eq!(router.peer_count(), 0);
    assert!(router.identities().is_empty());
    assert!(router.send_multipart(message(&["A", "late"])).is_err());
    assert_eq!(
        router.send_multipart(message(&["A", "late"])),
        Err(SocketError::DestinationNotFound)
    );
    assert_eq!(router.recv_multipart(), Err(SocketError::NoMessage));
    assert_eq!(router.register(frame("C")), Err(SocketError::ConnectionClosed));
    assert_eq!(router.peer_count(), 0);
    router.close();
    assert_eq!(router.peer_count(), 0);
}

#[test]
fn distinct_registrations_are_all_counted() {
    let mut router = RouterSocket::new(4);
    for n in 0..200u16 {
        let identity = vec![(n / 256) as u8, (n % 256) as u8];
        assert_eq!(router.register(identity), Ok(()));
    }
    assert_eq!(router.peer_count(), 200);
    let mut ids = router.identities();
    ids.sort();
    ids.dedup();
    assert_eq!(ids.len(), 200);
    for n in 0..200u16 {
        assert!(router.has_peer(&vec![(n / 256) as u8, (n % 256) as u8]));
    }
    assert!(!router.has_peer(&vec![0u8, 200u8]));
}

#[test]
fn duplicate_identity_is_rejected_and_first_peer_keeps_its_queue() {
    let mut router = RouterSocket::new(8);
    assert_eq!(router.register(frame("A")), Ok(()));
    assert_eq!(router.send_multipart(message(&["A", "queued"])), Ok(()));
    assert_eq!(router.register(frame("A")), Err(SocketError::DuplicateIdentity));
    assert_eq!(router.peer_count(), 1);
    assert_eq!(router.pull_outbound(&frame("A")), Some(message(&["queued"])));
}

#[test]
fn full_outbound_queue_fails_the_send_only() {
    let mut router = RouterSocket::new(2);
    assert_eq!(router.register(frame("A")), Ok(()));
    assert_eq!(router.register(frame("B")), Ok(()));
    assert_eq!(router.send_multipart(message(&["A", "1"])), Ok(()));
    assert_eq!(router.send_multipart(message(&["A", "2"])), Ok(()));
    assert_eq!(router.send_multipart(message(&["A", "3"])), Err(SocketError::SendFailed));
    assert_eq!(router.send_multipart(message(&["B", "1"])), Ok(()));
    assert_eq!(router.pull_outbound(&frame("A")), Some(message(&["1"])));
    assert_eq!(router.send_multipart(message(&["A", "4"])), Ok(()));
    assert_eq!(router.pull_outbound(&frame("A")), Some(message(&["2"])));
    assert_eq!(router.pull_outbound(&frame("A")), Some(message(&["4"])));
    assert_eq!(router.pull_outbound(&frame("A")), None);
}

#[test]
fn zero_capacity_queue_accepts_nothing() {
    let mut router = RouterSocket::new(0);
    assert_eq!(router.register(frame("A")), Ok(()));
    assert_eq!(router.send_multipart(message(&["A", "x"])), Err(SocketError::SendFailed));
    assert_eq!(router.push_inbound(&frame("A"), message(&["x"])), Err(SocketError::SendFailed));
    assert_eq!(router.recv_multipart(), Err(SocketError::NoMessage));
}

#[test]
fn recv_puts_the_source_identity_in_front() {
    let mut router = RouterSocket::new(8);
    assert_eq!(router.register(frame("client-7")), Ok(()));
    assert_eq!(router.push_inbound(&frame("client-7"), message(&["x", "y"])), Ok(()));
    assert_eq!(router.recv_multipart(), Ok(message(&["client-7", "x", "y"])));
    assert_eq!(router.recv_multipart(), Err(SocketError::NoMessage));
}

#[test]
fn recv_keeps_arrival_order_within_a_peer() {
    let mut router = RouterSocket::new(8);
    assert_eq!(router.register(frame("A")), Ok(()));
    for n in 0..5u8 {
        assert_eq!(router.push_inbound(&frame("A"), vec![vec![n]]), Ok(()));
    }
    for n in 0..5u8 {
        assert_eq!(router.recv_multipart(), Ok(vec![frame("A"), vec![n]]));
    }
    assert_eq!(router.recv_multipart(), Err(SocketError::NoMessage));
}

#[test]
fn recv_serves_every_peer_that_has_data() {
    let mut router = RouterSocket::new(8);
    for id in ["A", "B", "C"] {
        assert_eq!(router.register(frame(id)), Ok(()));
    }
    assert_eq!(router.push_inbound(&frame("A"), message(&["from-a"])), Ok(()));
    assert_eq!(router.push_inbound(&frame("C"), message(&["from-c"])), Ok(()));
    let mut got = vec![router.recv_multipart().unwrap(), router.recv_multipart().unwrap()];
    got.sort();
    assert_eq!(got, vec![message(&["A", "from-a"]), message(&["C", "from-c"])]);
    assert_eq!(router.recv_multipart(), Err(SocketError::NoMessage));
}

#[test]
fn reply_can_be_addressed_with_the_received_message() {
    let mut router = RouterSocket::new(8);
    assert_eq!(router.register(frame("A")), Ok(()));
    assert_eq!(router.register(frame("B")), Ok(()));
    assert_eq!(router.push_inbound(&frame("B"), message(&["ping"])), Ok(()));
    let received = router.recv_multipart().unwrap();
    assert_eq!(router.send_multipart(received), Ok(()));
    assert_eq!(router.pull_outbound(&frame("B")), Some(message(&["ping"])));
    assert_eq!(router.pull_outbound(&frame("A")), None);
}

#[test]
fn unregister_is_idempotent() {
    let mut router = RouterSocket::new(8);
    assert_eq!(router.register(frame("A")), Ok(()));
    assert_eq!(router.register(frame("B")), Ok(()));
    router.unregister(&frame("A"));
    assert_eq!(router.peer_count(), 1);
    assert!(!router.has_peer(&frame("A")));
    assert!(router.has_peer(&frame("B")));
    router.unregister(&frame("A"));
    router.unregister(&frame("never"));
    assert_eq!(router.peer_count(), 1);
    assert_eq!(router.identities(), vec![frame("B")]);
    assert_eq!(
        router.send_multipart(message(&["A", "x"])),
        Err(SocketError::DestinationNotFound)
    );
    assert_eq!(router.register(frame("A")), Ok(()));
    assert_eq!(router.pull_outbound(&frame("A")), None);
}

#[test]
fn router_rejects_single_frame_operations() {
    let mut router = RouterSocket::new(8);
    assert_eq!(router.register(frame("A")), Ok(()));
    assert_eq!(router.push_inbound(&frame("A"), message(&["x"])), Ok(()));
    assert_eq!(router.send(frame("x")), Err(SocketError::UnsupportedOperation));
    assert_eq!(router.recv(), Err(SocketError::UnsupportedOperation));
    assert_eq!(router.peer_count(), 1);
    assert_eq!(router.recv_multipart(), Ok(message(&["A", "x"])));
}

#[test]
fn bind_needs_a_listening_endpoint() {
    assert!(matches!(RouterSocket::bind(false, 8), Err(SocketError::BindFailed)));
    let mut router = match RouterSocket::bind(true, 1) {
        Ok(router) => router,
        Err(e) => panic!("bind failed: {:?}", e),
    };
    assert!(router.is_accepting());
    assert_eq!(router.peer_count(), 0);
    assert_eq!(router.register(frame("A")), Ok(()));
    assert_eq!(router.send_multipart(message(&["A", "1"])), Ok(()));
    assert_eq!(router.send_multipart(message(&["A", "2"])), Err(SocketError::SendFailed));
}

#[test]
fn wire_side_of_unknown_peer_is_refused() {
    let mut router = RouterSocket::new(1);
    assert_eq!(
        router.push_inbound(&frame("A"), message(&["x"])),
        Err(SocketError::DestinationNotFound)
    );
    assert_eq!(router.pull_outbound(&frame("A")), None);
    assert_eq!(router.register(frame("A")), Ok(()));
    assert_eq!(router.push_inbound(&frame("A"), message(&["x"])), Ok(()));
    assert_eq!(router.push_inbound(&frame("A"), message(&["y"])), Err(SocketError::SendFailed));
    assert_eq!(router.recv_multipart(), Ok(message(&["A", "x"])));
}

#[test]
fn identities_differ_by_content() {
    let mut router = RouterSocket::new(8);
    assert_eq!(router.register(vec![]), Ok(()));
    assert_eq!(router.register(vec![0]), Ok(()));
    assert_eq!(router.register(vec![0, 0]), Ok(()));
    assert_eq!(router.register(vec![0]), Err(SocketError::DuplicateIdentity));
    assert_eq!(router.peer_count(), 3);
    assert_eq!(router.send_multipart(vec![vec![], vec![1]]), Ok(()));
    assert_eq!(router.pull_outbound(&vec![]), Some(vec![vec![1]]));
    assert_eq!(router.pull_outbound(&vec![0]), None);
}

#[test]
fn wire_message_without_frames_is_invalid() {
    let mut router = RouterSocket::new(4);
    assert_eq!(router.push_inbound(&frame("A"), Vec::new()), Err(SocketError::InvalidMessage));
    assert_eq!(router.register(frame("A")), Ok(()));
    assert_eq!(router.push_inbound(&frame("A"), Vec::new()), Err(SocketError::InvalidMessage));
    assert_eq!(router.recv_multipart(), Err(SocketError::NoMessage));
    assert_eq!(router.push_inbound(&frame("A"), vec![Vec::new()]), Ok(()));
    assert_eq!(router.recv_multipart(), Ok(vec![frame("A"), Vec::new()]));
}

#[test]
fn payload_may_hold_empty_frames() {
    let mut router = RouterSocket::new(4);
    assert_eq!(router.register(frame("A")), Ok(()));
    assert_eq!(router.send_multipart(vec![frame("A"), Vec::new(), frame("body")]), Ok(()));
    assert_eq!(router.pull_outbound(&frame("A")), Some(vec![Vec::new(), frame("body")]));
}
