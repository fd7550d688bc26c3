//! End-to-end scenarios against the dispatch runtime, with the real
//! cryptography linked: identities, lobby lifecycle, fan-out and timers.

use serde_json::Value;

use wgfw::echo::EchoGame;
use wgfw::game_registry::GameRegistry;
use wgfw::game_server::{ConnectionId, GameServer, OutboundFrame};
use wgfw::game_state::{EventId, Game, GameCommon, Updates};
use wgfw::protocol::{
    ClientMessage, ClientMessageData, ErrorReply, GameId, Identity, MessageId, PlayerId,
    ReconnectionSecret, ReplyMessage, ServerMessage, ServerSentMessage,
};

const KEY: [u8; 32] = [7u8; 32];

fn echo_server() -> GameServer<EchoGame> {
    let mut registry = GameRegistry::new();
    registry.register("echo", EchoGame::new());
    GameServer::new(registry, KEY.to_vec())
}

fn msg(id: u128, data: ClientMessageData) -> ClientMessage {
    ClientMessage { id: MessageId(id), data }
}

fn reply_of(frames: &[OutboundFrame], id: u128) -> &ReplyMessage {
    match &frames[0].message {
        ServerMessage::ReplyTo(mid, reply) => {
            assert_eq!(*mid, MessageId(id));
            reply
        }
        other => panic!("expected a reply frame first, got {:?}", other),
    }
}

fn identify(server: &mut GameServer<EchoGame>, conn: ConnectionId, player: u128, req: u128) -> ReconnectionSecret {
    assert!(server.process_connected(conn, PlayerId(player)));
    let frames = server.process_client_message(conn, msg(req, ClientMessageData::NewIdentity), GameId(u128::MAX));
    assert_eq!(frames.len(), 1);
    match reply_of(&frames, req) {
        ReplyMessage::Identity(identity) => {
            assert_eq!(identity.player_id, PlayerId(player));
            identity.reconnection_secret.clone()
        }
        other => panic!("expected an identity, got {:?}", other),
    }
}

#[test]
fn new_identity_create_and_echo() {
    let mut server = echo_server();
    let conn = ConnectionId(1);
    let _token = identify(&mut server, conn, 100, 1);

    // CreateGame: reply first, then one GameInfo to the only member.
    let frames = server.process_client_message(
        conn,
        msg(2, ClientMessageData::CreateGame("echo".to_string())),
        GameId(500),
    );
    match reply_of(&frames, 2) {
        ReplyMessage::GameCreated(g) => assert_eq!(*g, GameId(500)),
        other => panic!("expected GameCreated, got {:?}", other),
    }
    assert_eq!(frames.len(), 2);
    match &frames[1].message {
        ServerMessage::ServerSent(ServerSentMessage::GameInfo { id, leader, players, public_state, .. }) => {
            assert_eq!(*id, GameId(500));
            assert_eq!(*leader, PlayerId(100));
            assert_eq!(players, &vec![PlayerId(100)]);
            assert_eq!(public_state, &Value::Null);
        }
        other => panic!("expected GameInfo, got {:?}", other),
    }
    assert_eq!(frames[1].conn, conn);

    // Inner("hi"): the reply precedes the broadcast carrying the new state.
    let frames = server.process_client_message(
        conn,
        msg(3, ClientMessageData::Inner(GameId(500), Value::String("hi".to_string()))),
        GameId(501),
    );
    match reply_of(&frames, 3) {
        ReplyMessage::Inner(v) => assert_eq!(v, &Value::String("hi".to_string())),
        other => panic!("expected Inner reply, got {:?}", other),
    }
    assert_eq!(frames.len(), 2);
    match &frames[1].message {
        ServerMessage::ServerSent(ServerSentMessage::GameInfo { public_state, .. }) => {
            assert_eq!(public_state, &Value::String("hi".to_string()));
        }
        other => panic!("expected GameInfo, got {:?}", other),
    }
}

#[test]
fn reconnect_resumes_membership() {
    let mut server = echo_server();
    let conn_a = ConnectionId(1);
    let token = identify(&mut server, conn_a, 100, 1);
    let frames = server.process_client_message(
        conn_a,
        msg(2, ClientMessageData::CreateGame("echo".to_string())),
        GameId(500),
    );
    assert_eq!(frames.len(), 2);

    // The connection closes; membership persists.
    let frames = server.process_disconnected(conn_a);
    assert_eq!(frames.len(), 0);

    // A new connection identifies with the old token and resumes.
    let conn_b = ConnectionId(2);
    assert!(server.process_connected(conn_b, PlayerId(200)));
    let claim = Identity { player_id: PlayerId(100), reconnection_secret: token };
    let frames = server.process_client_message(
        conn_b,
        msg(3, ClientMessageData::Identify(claim)),
        GameId(501),
    );
    match reply_of(&frames, 3) {
        ReplyMessage::Identity(identity) => assert_eq!(identity.player_id, PlayerId(100)),
        other => panic!("expected Identity, got {:?}", other),
    }
    // The joined lobby's state is resent to the reconnected player.
    assert_eq!(frames.len(), 2);
    match &frames[1].message {
        ServerMessage::ServerSent(ServerSentMessage::GameInfo { id, players, .. }) => {
            assert_eq!(*id, GameId(500));
            assert_eq!(players, &vec![PlayerId(100)]);
        }
        other => panic!("expected GameInfo, got {:?}", other),
    }
    assert_eq!(frames[1].conn, conn_b);

    // Membership held throughout.
    let frames = server.process_client_message(conn_b, msg(4, ClientMessageData::JoinedGames), GameId(502));
    match reply_of(&frames, 4) {
        ReplyMessage::JoinedGames(ids) => assert_eq!(ids, &vec![GameId(500)]),
        other => panic!("expected JoinedGames, got {:?}", other),
    }
}

#[test]
fn invalid_token_is_rejected_and_connection_stays() {
    let mut server = echo_server();
    let conn = ConnectionId(1);
    assert!(server.process_connected(conn, PlayerId(100)));
    let claim = Identity {
        player_id: PlayerId(100),
        reconnection_secret: ReconnectionSecret { tag: vec![0u8; 32] },
    };
    let frames = server.process_client_message(conn, msg(1, ClientMessageData::Identify(claim)), GameId(500));
    assert_eq!(frames.len(), 1);
    match reply_of(&frames, 1) {
        ReplyMessage::Error(ErrorReply::InvalidReconnectionSecret) => {}
        other => panic!("expected InvalidReconnectionSecret, got {:?}", other),
    }
    // The connection remains usable: a fresh identity can still be requested.
    let frames = server.process_client_message(conn, msg(2, ClientMessageData::NewIdentity), GameId(501));
    match reply_of(&frames, 2) {
        ReplyMessage::Identity(identity) => assert_eq!(identity.player_id, PlayerId(100)),
        other => panic!("expected Identity, got {:?}", other),
    }
}

#[test]
fn unknown_game_type_creates_nothing() {
    let mut server = echo_server();
    let conn = ConnectionId(1);
    let _ = identify(&mut server, conn, 100, 1);
    let frames = server.process_client_message(
        conn,
        msg(2, ClientMessageData::CreateGame("does-not-exist".to_string())),
        GameId(500),
    );
    assert_eq!(frames.len(), 1);
    match reply_of(&frames, 2) {
        ReplyMessage::Error(ErrorReply::InvalidGameFormat) => {}
        other => panic!("expected InvalidGameFormat, got {:?}", other),
    }
    let frames = server.process_client_message(conn, msg(3, ClientMessageData::JoinedGames), GameId(501));
    match reply_of(&frames, 3) {
        ReplyMessage::JoinedGames(ids) => assert!(ids.is_empty()),
        other => panic!("expected JoinedGames, got {:?}", other),
    }
}

#[test]
fn leader_reassignment_smallest_member_wins() {
    let mut server = echo_server();
    let conn_p = ConnectionId(1);
    let conn_q = ConnectionId(2);
    let _ = identify(&mut server, conn_p, 100, 1);
    let _ = identify(&mut server, conn_q, 200, 2);
    let frames = server.process_client_message(
        conn_p,
        msg(3, ClientMessageData::CreateGame("echo".to_string())),
        GameId(500),
    );
    assert_eq!(frames.len(), 2);
    let frames = server.process_client_message(conn_q, msg(4, ClientMessageData::JoinGame(GameId(500))), GameId(501));
    match reply_of(&frames, 4) {
        ReplyMessage::JoinedToGame(g) => assert_eq!(*g, GameId(500)),
        other => panic!("expected JoinedToGame, got {:?}", other),
    }
    // Broadcast reaches both members, members sorted by id.
    assert_eq!(frames.len(), 3);
    for f in &frames[1..] {
        match &f.message {
            ServerMessage::ServerSent(ServerSentMessage::GameInfo { leader, players, .. }) => {
                assert_eq!(*leader, PlayerId(100));
                assert_eq!(players, &vec![PlayerId(100), PlayerId(200)]);
            }
            other => panic!("expected GameInfo, got {:?}", other),
        }
    }

    // The leader leaves: the smallest remaining member takes over.
    let frames = server.process_client_message(conn_p, msg(5, ClientMessageData::LeaveGame(GameId(500))), GameId(502));
    match reply_of(&frames, 5) {
        ReplyMessage::Success => {}
        other => panic!("expected Success, got {:?}", other),
    }
    assert_eq!(frames.len(), 2);
    match &frames[1].message {
        ServerMessage::ServerSent(ServerSentMessage::GameInfo { leader, players, .. }) => {
            assert_eq!(*leader, PlayerId(200));
            assert_eq!(players, &vec![PlayerId(200)]);
        }
        other => panic!("expected GameInfo, got {:?}", other),
    }
    assert_eq!(frames[1].conn, conn_q);
}

#[test]
fn kick_and_promote_are_leader_only() {
    let mut server = echo_server();
    let conn_p = ConnectionId(1);
    let conn_q = ConnectionId(2);
    let _ = identify(&mut server, conn_p, 100, 1);
    let _ = identify(&mut server, conn_q, 200, 2);
    let _ = server.process_client_message(conn_p, msg(3, ClientMessageData::CreateGame("echo".to_string())), GameId(500));
    let _ = server.process_client_message(conn_q, msg(4, ClientMessageData::JoinGame(GameId(500))), GameId(501));

    // A non-leader may neither kick nor promote.
    let frames = server.process_client_message(
        conn_q,
        msg(5, ClientMessageData::KickPlayer(GameId(500), PlayerId(100))),
        GameId(502),
    );
    match reply_of(&frames, 5) {
        ReplyMessage::Error(ErrorReply::NotInThatGame) => {}
        other => panic!("expected NotInThatGame, got {:?}", other),
    }
    let frames = server.process_client_message(
        conn_q,
        msg(6, ClientMessageData::PromoteLeader(GameId(500), PlayerId(200))),
        GameId(503),
    );
    match reply_of(&frames, 6) {
        ReplyMessage::Error(ErrorReply::NotInThatGame) => {}
        other => panic!("expected NotInThatGame, got {:?}", other),
    }

    // The leader promotes the other member.
    let frames = server.process_client_message(
        conn_p,
        msg(7, ClientMessageData::PromoteLeader(GameId(500), PlayerId(200))),
        GameId(504),
    );
    match reply_of(&frames, 7) {
        ReplyMessage::Success => {}
        other => panic!("expected Success, got {:?}", other),
    }
    match &frames[1].message {
        ServerMessage::ServerSent(ServerSentMessage::GameInfo { leader, players, .. }) => {
            assert_eq!(*leader, PlayerId(200));
            assert_eq!(players, &vec![PlayerId(100), PlayerId(200)]);
        }
        other => panic!("expected GameInfo, got {:?}", other),
    }

    // The new leader kicks the old one out.
    let frames = server.process_client_message(
        conn_q,
        msg(8, ClientMessageData::KickPlayer(GameId(500), PlayerId(100))),
        GameId(505),
    );
    match reply_of(&frames, 8) {
        ReplyMessage::Success => {}
        other => panic!("expected Success, got {:?}", other),
    }
    match &frames[1].message {
        ServerMessage::ServerSent(ServerSentMessage::GameInfo { leader, players, .. }) => {
            assert_eq!(*leader, PlayerId(200));
            assert_eq!(players, &vec![PlayerId(200)]);
        }
        other => panic!("expected GameInfo, got {:?}", other),
    }
}

#[test]
fn identification_gates() {
    let mut server = echo_server();
    let conn = ConnectionId(1);
    assert!(server.process_connected(conn, PlayerId(100)));
    // Anything but an identification attempt is rejected first.
    let frames = server.process_client_message(
        conn,
        msg(1, ClientMessageData::CreateGame("echo".to_string())),
        GameId(500),
    );
    match reply_of(&frames, 1) {
        ReplyMessage::Error(ErrorReply::MustIdentifyFirst) => {}
        other => panic!("expected MustIdentifyFirst, got {:?}", other),
    }
    let _ = identify_inline(&mut server, conn, 2);
    // Identifying twice is rejected too.
    let frames = server.process_client_message(conn, msg(3, ClientMessageData::NewIdentity), GameId(501));
    match reply_of(&frames, 3) {
        ReplyMessage::Error(ErrorReply::AlreadyIdentified) => {}
        other => panic!("expected AlreadyIdentified, got {:?}", other),
    }
}

fn identify_inline(server: &mut GameServer<EchoGame>, conn: ConnectionId, req: u128) -> ReconnectionSecret {
    let frames = server.process_client_message(conn, msg(req, ClientMessageData::NewIdentity), GameId(u128::MAX));
    match reply_of(&frames, req) {
        ReplyMessage::Identity(identity) => identity.reconnection_secret.clone(),
        other => panic!("expected Identity, got {:?}", other),
    }
}

#[test]
fn join_and_inner_on_missing_or_foreign_lobby() {
    let mut server = echo_server();
    let conn_p = ConnectionId(1);
    let conn_q = ConnectionId(2);
    let _ = identify(&mut server, conn_p, 100, 1);
    let _ = identify(&mut server, conn_q, 200, 2);
    let frames = server.process_client_message(conn_p, msg(3, ClientMessageData::JoinGame(GameId(999))), GameId(500));
    match reply_of(&frames, 3) {
        ReplyMessage::Error(ErrorReply::NoSuchGameLobby) => {}
        other => panic!("expected NoSuchGameLobby, got {:?}", other),
    }
    let _ = server.process_client_message(conn_p, msg(4, ClientMessageData::CreateGame("echo".to_string())), GameId(500));
    // A non-member's game message is refused before the plug-in sees it.
    let frames = server.process_client_message(
        conn_q,
        msg(5, ClientMessageData::Inner(GameId(500), Value::Null)),
        GameId(501),
    );
    match reply_of(&frames, 5) {
        ReplyMessage::Error(ErrorReply::NotInThatGame) => {}
        other => panic!("expected NotInThatGame, got {:?}", other),
    }
}

#[test]
fn game_modes_lists_registered_names() {
    let mut server = echo_server();
    let conn = ConnectionId(1);
    let _ = identify(&mut server, conn, 100, 1);
    let frames = server.process_client_message(conn, msg(2, ClientMessageData::GameModes), GameId(500));
    match reply_of(&frames, 2) {
        ReplyMessage::GameModes(names) => assert_eq!(names, &vec!["echo".to_string()]),
        other => panic!("expected GameModes, got {:?}", other),
    }
}

#[test]
fn stale_connection_is_silently_replaced() {
    let mut server = echo_server();
    let conn_a = ConnectionId(1);
    let conn_b = ConnectionId(2);
    let token = identify(&mut server, conn_a, 100, 1);
    assert!(server.process_connected(conn_b, PlayerId(200)));
    let claim = Identity { player_id: PlayerId(100), reconnection_secret: token };
    let frames = server.process_client_message(conn_b, msg(2, ClientMessageData::Identify(claim)), GameId(500));
    match reply_of(&frames, 2) {
        ReplyMessage::Identity(identity) => assert_eq!(identity.player_id, PlayerId(100)),
        other => panic!("expected Identity, got {:?}", other),
    }
    // The old connection lost its binding: its messages are dropped.
    let frames = server.process_client_message(conn_a, msg(3, ClientMessageData::JoinedGames), GameId(501));
    assert!(frames.is_empty());
    // Disconnecting the old connection later is harmless.
    let frames = server.process_disconnected(conn_a);
    assert!(frames.is_empty());
    // The new connection acts as the claimed player.
    let frames = server.process_client_message(conn_b, msg(4, ClientMessageData::JoinedGames), GameId(502));
    match reply_of(&frames, 4) {
        ReplyMessage::JoinedGames(ids) => assert!(ids.is_empty()),
        other => panic!("expected JoinedGames, got {:?}", other),
    }
}

#[test]
fn invalid_message_reports_without_disconnecting() {
    let mut server = echo_server();
    let conn = ConnectionId(1);
    assert!(server.process_connected(conn, PlayerId(100)));
    let frame = server.process_invalid_message(conn, "bad json".to_string());
    match frame {
        Some(f) => {
            assert_eq!(f.conn, conn);
            match f.message {
                ServerMessage::ServerSent(ServerSentMessage::Error { message }) => {
                    assert_eq!(message, "bad json");
                }
                other => panic!("expected Error frame, got {:?}", other),
            }
        }
        None => panic!("expected a frame for a known connection"),
    }
    assert!(server.process_invalid_message(ConnectionId(9), "x".to_string()).is_none());
}

/// A game that schedules one timer event per message, reports how often its
/// timer fired as its public state, and answers with an error value on demand.
#[derive(Clone)]
struct TimerGame {
    fired: u64,
}

impl Game for TimerGame {
    fn public_state(&self, _common: &GameCommon) -> Value {
        Value::from(self.fired)
    }

    fn state_for_player(&self, _common: &GameCommon, _player: PlayerId) -> Value {
        Value::Null
    }

    fn on_event(&mut self, _common: &GameCommon, _id: EventId) -> Updates {
        self.fired += 1;
        Updates::changed()
    }

    fn on_message_from(
        &mut self,
        _common: &GameCommon,
        _player: PlayerId,
        message: Value,
    ) -> (Updates, Result<Value, Value>) {
        if message == Value::String("fail".to_string()) {
            return (Updates::none(), Err(Value::String("refused".to_string())));
        }
        let mut updates = Updates::new(false);
        let _ = updates.add_timeout(50);
        (updates, Ok(Value::Null))
    }
}

fn timer_server() -> GameServer<TimerGame> {
    let mut registry = GameRegistry::new();
    registry.register("timer", TimerGame { fired: 0 });
    GameServer::new(registry, KEY.to_vec())
}

#[test]
fn timer_fires_exactly_once() {
    let mut server = timer_server();
    let conn = ConnectionId(1);
    assert!(server.process_connected(conn, PlayerId(100)));
    let _ = server.process_client_message(conn, msg(1, ClientMessageData::NewIdentity), GameId(998));
    let _ = server.process_client_message(conn, msg(2, ClientMessageData::CreateGame("timer".to_string())), GameId(500));

    // The plug-in reports no change, so no broadcast follows the reply.
    let frames = server.process_client_message(
        conn,
        msg(3, ClientMessageData::Inner(GameId(500), Value::Null)),
        GameId(501),
    );
    assert_eq!(frames.len(), 1);
    match reply_of(&frames, 3) {
        ReplyMessage::Inner(v) => assert_eq!(v, &Value::Null),
        other => panic!("expected Inner, got {:?}", other),
    }
    assert_eq!(server.next_timeout(), Some(50));

    // Not yet due: nothing fires.
    let frames = server.process_due_timers(10);
    assert!(frames.is_empty());
    assert_eq!(server.next_timeout(), Some(50));

    // Due: the event fires once and the change is broadcast.
    let frames = server.process_due_timers(60);
    assert_eq!(frames.len(), 1);
    match &frames[0].message {
        ServerMessage::ServerSent(ServerSentMessage::GameInfo { public_state, .. }) => {
            assert_eq!(public_state, &Value::from(1u64));
        }
        other => panic!("expected GameInfo, got {:?}", other),
    }
    assert_eq!(server.next_timeout(), None);

    // No duplicate delivery on later passes.
    let frames = server.process_due_timers(1000);
    assert!(frames.is_empty());
}

#[test]
fn due_entries_are_drained_exactly_once() {
    let mut server = timer_server();
    let conn = ConnectionId(1);
    assert!(server.process_connected(conn, PlayerId(100)));
    let _ = server.process_client_message(conn, msg(1, ClientMessageData::NewIdentity), GameId(998));
    let _ = server.process_client_message(conn, msg(2, ClientMessageData::CreateGame("timer".to_string())), GameId(500));
    let _ = server.process_client_message(
        conn,
        msg(3, ClientMessageData::Inner(GameId(500), Value::Null)),
        GameId(501),
    );
    // Nothing is due yet, so nothing is drained.
    assert!(server.pop_due_entries(10).is_empty());
    assert_eq!(server.next_timeout(), Some(50));
    // Exactly the one due entry comes out, and only once.
    let due = server.pop_due_entries(60);
    assert_eq!(due.len(), 1);
    assert_eq!(due[0].0, GameId(500));
    assert!(server.pop_due_entries(60).is_empty());
    assert_eq!(server.next_timeout(), None);
    // Delivering it fires the plug-in's timer hook once.
    let frames = server.process_timer(due[0].0, due[0].1);
    assert_eq!(frames.len(), 1);
    match &frames[0].message {
        ServerMessage::ServerSent(ServerSentMessage::GameInfo { public_state, .. }) => {
            assert_eq!(public_state, &Value::from(1u64));
        }
        other => panic!("expected GameInfo, got {:?}", other),
    }
}

#[test]
fn stale_timer_entries_do_not_reach_plugins() {
    let mut server = timer_server();
    // No lobby with this id exists: the entry is dropped silently.
    let frames = server.process_timer(GameId(999), EventId(1));
    assert!(frames.is_empty());
}

#[test]
fn plugin_error_becomes_inner_error_reply() {
    let mut server = timer_server();
    let conn = ConnectionId(1);
    assert!(server.process_connected(conn, PlayerId(100)));
    let _ = server.process_client_message(conn, msg(1, ClientMessageData::NewIdentity), GameId(998));
    let _ = server.process_client_message(conn, msg(2, ClientMessageData::CreateGame("timer".to_string())), GameId(500));
    let frames = server.process_client_message(
        conn,
        msg(3, ClientMessageData::Inner(GameId(500), Value::String("fail".to_string()))),
        GameId(501),
    );
    assert_eq!(frames.len(), 1);
    match reply_of(&frames, 3) {
        ReplyMessage::Error(ErrorReply::Inner(v)) => {
            assert_eq!(v, &Value::String("refused".to_string()));
        }
        other => panic!("expected Error(Inner), got {:?}", other),
    }
}

#[test]
fn randomized_entry_points_work() {
    let mut registry = GameRegistry::new();
    registry.register("echo", EchoGame::new());
    let mut server = GameServer::with_generated_key(registry).expect("random generator available");
    let conn = ConnectionId::new();
    let other = ConnectionId::new();
    assert_ne!(conn, other);
    let player = server.connect(conn).expect("fresh ids");
    let frames = server
        .process_message(conn, ClientMessageData::NewIdentity.finalize())
        .expect("fresh ids");
    assert_eq!(frames.len(), 1);
    match &frames[0].message {
        ServerMessage::ReplyTo(_, ReplyMessage::Identity(identity)) => {
            assert_eq!(identity.player_id, player);
        }
        other => panic!("expected Identity, got {:?}", other),
    }
}
