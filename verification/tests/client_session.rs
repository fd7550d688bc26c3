//! The client-side session logic driven against the real runtime: the
//! identification flow, reply routing and update routing.

use serde_json::Value;

use wgfw::client::{ClientReaction, ClientSession};
use wgfw::echo::EchoGame;
use wgfw::game_registry::GameRegistry;
use wgfw::game_server::{ConnectionId, GameServer, OutboundFrame};
use wgfw::protocol::{
    ClientMessageData, ErrorReply, GameId, Identity, MessageId, PlayerId, ReconnectionSecret,
    ReplyMessage, ServerMessage, ServerSentMessage,
};

fn echo_server() -> GameServer<EchoGame> {
    let mut registry = GameRegistry::new();
    registry.register("echo", EchoGame::new());
    GameServer::new(registry, vec![7u8; 32])
}

fn take_first(frames: &mut Vec<OutboundFrame>) -> ServerMessage {
    assert!(!frames.is_empty());
    frames.remove(0).message
}

#[test]
fn fresh_session_identifies_and_creates() {
    let mut server = echo_server();
    let mut session = ClientSession::new();
    let conn = ConnectionId(1);
    assert!(server.process_connected(conn, PlayerId(100)));

    // No stored identity: the session asks for a new one and becomes ready.
    let m = session.on_open(None, MessageId(1));
    let mut frames = server.process_client_message(conn, m, GameId(900));
    let identity = match session.on_server_message(take_first(&mut frames)) {
        ClientReaction::Ready(identity) => identity,
        other => panic!("expected Ready, got {:?}", other),
    };
    assert_eq!(identity.player_id, PlayerId(100));

    // A user request is answered to its own message id.
    let m = session.send_request(MessageId(2), ClientMessageData::CreateGame("echo".to_string()));
    let mut frames = server.process_client_message(conn, m, GameId(500));
    match session.on_server_message(take_first(&mut frames)) {
        ClientReaction::UserReply(mid, ReplyMessage::GameCreated(g)) => {
            assert_eq!(mid, MessageId(2));
            assert_eq!(g, GameId(500));
        }
        other => panic!("expected the GameCreated reply, got {:?}", other),
    }
    // The broadcast that follows is routed as an update.
    match session.on_server_message(take_first(&mut frames)) {
        ClientReaction::Update { id, leader, players, public_state, .. } => {
            assert_eq!(id, GameId(500));
            assert_eq!(leader, PlayerId(100));
            assert_eq!(players, vec![PlayerId(100)]);
            assert_eq!(public_state, Value::Null);
        }
        other => panic!("expected an update, got {:?}", other),
    }
}

#[test]
fn stale_identity_falls_back_to_a_fresh_one() {
    let mut server = echo_server();
    let mut session = ClientSession::new();
    let conn = ConnectionId(1);
    assert!(server.process_connected(conn, PlayerId(100)));

    // The stored identity is from another process: it no longer verifies.
    let stale = Identity {
        player_id: PlayerId(77),
        reconnection_secret: ReconnectionSecret { tag: vec![1u8; 32] },
    };
    let m = session.on_open(Some(stale), MessageId(1));
    let mut frames = server.process_client_message(conn, m, GameId(900));
    match session.on_server_message(take_first(&mut frames)) {
        ClientReaction::RetryIdentify => {}
        other => panic!("expected RetryIdentify, got {:?}", other),
    }

    // The session retries with a brand-new identity and becomes ready.
    let m = session.request_new_identity(MessageId(2));
    let mut frames = server.process_client_message(conn, m, GameId(901));
    match session.on_server_message(take_first(&mut frames)) {
        ClientReaction::Ready(identity) => assert_eq!(identity.player_id, PlayerId(100)),
        other => panic!("expected Ready, got {:?}", other),
    }
}

#[test]
fn unsolicited_messages_are_routed_or_dropped() {
    let mut session = ClientSession::new();
    // A reply nothing waits for is ignored.
    match session.on_server_message(ServerMessage::ReplyTo(MessageId(9), ReplyMessage::Success)) {
        ClientReaction::Ignore => {}
        other => panic!("expected Ignore, got {:?}", other),
    }
    // A server-initiated error is reported.
    let sent = ServerMessage::ServerSent(ServerSentMessage::Error { message: "oops".to_string() });
    match session.on_server_message(sent) {
        ClientReaction::ReportError(text) => assert_eq!(text, "oops"),
        other => panic!("expected ReportError, got {:?}", other),
    }
    // An unexpected reply to an identification request is ignored too.
    let m = session.on_open(None, MessageId(1));
    assert_eq!(m.id, MessageId(1));
    let odd = ServerMessage::ReplyTo(MessageId(1), ReplyMessage::Error(ErrorReply::NotInThatGame));
    match session.on_server_message(odd) {
        ClientReaction::Ignore => {}
        other => panic!("expected Ignore, got {:?}", other),
    }
}
