use chat_relay::registry::ChatServer;
use chat_relay::session::ActiveAction;
use chat_relay::session::ActiveEvent;
use chat_relay::session::Session;

fn connect(server: &mut ChatServer, id: u64, name: &[u8]) -> Session {
    let mut s = Session::new(id);
    let prompt = s.start_handshake();
    assert_eq!(prompt, b"What is your Username".to_vec());
    s.complete_handshake(server, Some(name.to_vec()));
    s
}

#[test]
fn two_sessions_chat() {
    let mut server = ChatServer::new();
    let mut alice = connect(&mut server, 1, b"alice");
    let _bob = connect(&mut server, 2, b"bob");
    let action = alice.handle_active_event(&mut server, ActiveEvent::InboundFrame(b"hi".to_vec()));
    assert!(matches!(action, ActiveAction::Broadcasted));
    // bob receives the wrapped line; alice never receives her own message
    assert_eq!(server.pop_outbox(2), Some(b"alice: hi".to_vec()));
    assert_eq!(server.pop_outbox(2), None);
    assert_eq!(server.pop_outbox(1), Some(b"bob has joined the chat".to_vec()));
    assert_eq!(server.pop_outbox(1), None);
}

#[test]
fn join_then_leave_seen_in_order() {
    let mut server = ChatServer::new();
    let _bob = connect(&mut server, 2, b"bob");
    let mut alice = connect(&mut server, 1, b"alice");
    let action = alice.handle_active_event(&mut server, ActiveEvent::StreamEnded);
    assert!(matches!(action, ActiveAction::Close));
    alice.finish(&mut server);
    assert_eq!(server.pop_outbox(2), Some(b"alice has joined the chat".to_vec()));
    assert_eq!(server.pop_outbox(2), Some(b"alice has left the chat".to_vec()));
    assert_eq!(server.pop_outbox(2), None);
}

#[test]
fn disconnect_mid_broadcast_still_reaches_the_living() {
    let mut server = ChatServer::new();
    let mut alice = connect(&mut server, 1, b"alice");
    let _bob = connect(&mut server, 2, b"bob");
    let mut carol = connect(&mut server, 3, b"carol");
    // carol drops out just before alice's broadcast is routed
    let action = carol.handle_active_event(&mut server, ActiveEvent::InboundError);
    assert!(matches!(action, ActiveAction::Close));
    carol.finish(&mut server);
    let action = alice.handle_active_event(&mut server, ActiveEvent::InboundFrame(b"hi".to_vec()));
    // no error reaches the broadcaster, and bob still gets everything in order
    assert!(matches!(action, ActiveAction::Broadcasted));
    assert_eq!(server.pop_outbox(2), Some(b"carol has joined the chat".to_vec()));
    assert_eq!(server.pop_outbox(2), Some(b"carol has left the chat".to_vec()));
    assert_eq!(server.pop_outbox(2), Some(b"alice: hi".to_vec()));
    assert_eq!(server.pop_outbox(3), None);
}

#[test]
fn empty_payload_renders_as_bare_line() {
    let mut server = ChatServer::new();
    let mut alice = connect(&mut server, 1, b"alice");
    let _bob = connect(&mut server, 2, b"bob");
    let action = alice.handle_active_event(&mut server, ActiveEvent::InboundFrame(Vec::new()));
    assert!(matches!(action, ActiveAction::Broadcasted));
    assert_eq!(server.pop_outbox(2), Some(b"alice: ".to_vec()));
}

#[test]
fn outbox_message_is_forwarded_verbatim() {
    let mut server = ChatServer::new();
    let mut alice = connect(&mut server, 1, b"alice");
    let action =
        alice.handle_active_event(&mut server, ActiveEvent::OutboxMessage(b"raw".to_vec()));
    match action {
        ActiveAction::Forward(m) => assert_eq!(m, b"raw".to_vec()),
        _ => panic!("an outbox message must be forwarded"),
    }
}

#[test]
fn silent_peer_gets_the_empty_name() {
    let mut server = ChatServer::new();
    let mut silent = Session::new(7);
    let _prompt = silent.start_handshake();
    silent.complete_handshake(&mut server, None);
    let _bob = connect(&mut server, 2, b"bob");
    let action =
        silent.handle_active_event(&mut server, ActiveEvent::InboundFrame(b"hi".to_vec()));
    assert!(matches!(action, ActiveAction::Broadcasted));
    assert_eq!(server.pop_outbox(2), Some(b": hi".to_vec()));
}
