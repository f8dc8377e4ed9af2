use chat_relay::registry::ChatServer;

#[test]
fn snapshot_excludes_only_the_given_identity() {
    let mut server = ChatServer::new();
    server.register(1);
    server.register(2);
    server.register(3);
    assert_eq!(server.snapshot_except(2), vec![1u64, 3u64]);
    assert_eq!(server.snapshot_except(9), vec![1u64, 2u64, 3u64]);
}

#[test]
fn broadcast_reaches_everyone_but_the_sender() {
    let mut server = ChatServer::new();
    server.register(1);
    server.register(2);
    server.register(3);
    server.broadcast(1, &b"m".to_vec());
    assert_eq!(server.pop_outbox(2), Some(b"m".to_vec()));
    assert_eq!(server.pop_outbox(3), Some(b"m".to_vec()));
    assert_eq!(server.pop_outbox(1), None);
}

#[test]
fn outbox_is_fifo_per_sender() {
    let mut server = ChatServer::new();
    server.register(1);
    server.register(2);
    server.broadcast(1, &b"first".to_vec());
    server.broadcast(1, &b"second".to_vec());
    assert_eq!(server.pop_outbox(2), Some(b"first".to_vec()));
    assert_eq!(server.pop_outbox(2), Some(b"second".to_vec()));
    assert_eq!(server.pop_outbox(2), None);
}

#[test]
fn unregister_is_idempotent() {
    let mut server = ChatServer::new();
    server.register(1);
    server.register(2);
    server.unregister(2);
    server.unregister(2);
    assert_eq!(server.snapshot_except(0), vec![1u64]);
}

#[test]
fn removed_peer_receives_nothing_later() {
    let mut server = ChatServer::new();
    server.register(1);
    server.register(2);
    server.register(3);
    server.unregister(2);
    // the broadcast still completes toward every live peer
    server.broadcast(1, &b"x".to_vec());
    assert_eq!(server.pop_outbox(2), None);
    assert_eq!(server.pop_outbox(3), Some(b"x".to_vec()));
}

#[test]
fn popping_an_empty_outbox_yields_nothing() {
    let mut server = ChatServer::new();
    server.register(1);
    assert_eq!(server.pop_outbox(1), None);
    assert_eq!(server.pop_outbox(42), None);
}
