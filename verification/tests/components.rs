//! Component-level tests: the event queue, the publish planner, the registry,
//! the identity tokens and the bluffing-game rules data.

use serde_json::Value;

use wgfw::auth::{generate_secret_key, KEY_LEN, TAG_LEN};
use wgfw::event_queue::EventQueue;
use wgfw::game_registry::GameRegistry;
use wgfw::game_state::{EventId, Game, GameCommon, Updates};
use wgfw::echo::EchoGame;
use wgfw::protocol::{
    ClientMessageData, GameId, Identity, MessageId, PlayerId, ReconnectionSecret, ReplyMessage,
    ServerMessage, ServerSentMessage,
};
use wgfw::publish::{contains_u128, copy_u128s, PublishGameState};
use wgfw::skull::{ActionPrivate, ActionPublic, GamePrivate, PlayerPrivate, Tile};

#[test]
fn event_queue_orders_by_deadline() {
    let mut q: EventQueue<u32> = EventQueue::new();
    assert_eq!(q.next_timeout(), None);
    q.add(1, 30);
    q.add(2, 10);
    q.add(3, 20);
    q.add(4, 10);
    assert_eq!(q.next_timeout(), Some(10));
    // Not due yet.
    assert_eq!(q.pop_completed(5), None);
    // Equal deadlines keep insertion order.
    assert_eq!(q.pop_completed(15), Some(2));
    assert_eq!(q.pop_completed(15), Some(4));
    assert_eq!(q.pop_completed(15), None);
    assert_eq!(q.next_timeout(), Some(20));
    assert_eq!(q.pop_completed(100), Some(3));
    assert_eq!(q.pop_completed(100), Some(1));
    assert_eq!(q.pop_completed(100), None);
}

#[test]
fn updates_compose() {
    let a = Updates::changed();
    let mut b = Updates::none();
    let id1 = b.add_timeout(40);
    let id2 = b.add_timeout(70);
    assert_ne!(id1, id2);
    let merged = a.merge(b);
    assert!(merged.state_changed);
    assert_eq!(merged.events.len(), 2);
    assert_eq!(merged.events[0].0, 40);
    assert_eq!(merged.events[1].0, 70);
    let silent = Updates::new(false);
    assert!(silent.always_publish().state_changed);
}

#[test]
fn publish_plan_collapses_requests() {
    let mut plan = PublishGameState::new();
    plan.add(GameId(1), PlayerId(10));
    plan.add(GameId(1), PlayerId(20));
    plan.add(GameId(1), PlayerId(10));
    plan.add_all(GameId(2));
    plan.add(GameId(2), PlayerId(30));
    assert_eq!(plan.planned_ids(), vec![1, 2]);
    match plan.audience(1) {
        Some(Some(targets)) => assert_eq!(targets, vec![10, 20]),
        other => panic!("expected a target list, got {:?}", other.is_some()),
    }
    // A broadcast overrides and absorbs later targeted requests.
    match plan.audience(2) {
        Some(None) => {}
        _ => panic!("expected a broadcast entry"),
    }
    assert!(plan.audience(3).is_none());
    // A broadcast overrides a previous target list too.
    plan.add_all(GameId(1));
    match plan.audience(1) {
        Some(None) => {}
        _ => panic!("expected a broadcast entry"),
    }
}

#[test]
fn u128_vec_helpers() {
    let v = vec![3u128, 5, 7];
    assert!(contains_u128(&v, 5));
    assert!(!contains_u128(&v, 6));
    assert_eq!(copy_u128s(&v), v);
}

/// A game whose public state is just the number it was registered with,
/// making registrations distinguishable.
#[derive(Clone)]
struct CounterGame {
    start: u64,
}

impl Game for CounterGame {
    fn public_state(&self, _common: &GameCommon) -> Value {
        Value::from(self.start)
    }

    fn state_for_player(&self, _common: &GameCommon, _player: PlayerId) -> Value {
        Value::Null
    }

    fn on_event(&mut self, _common: &GameCommon, _id: EventId) -> Updates {
        Updates::none()
    }

    fn on_message_from(
        &mut self,
        _common: &GameCommon,
        _player: PlayerId,
        _message: Value,
    ) -> (Updates, Result<Value, Value>) {
        (Updates::none(), Ok(Value::Null))
    }
}

#[test]
fn registering_a_name_again_replaces_the_prototype() {
    let mut registry: GameRegistry<CounterGame> = GameRegistry::new();
    registry.register("counter", CounterGame { start: 5 });
    registry.register("counter", CounterGame { start: 9 });
    // The name list keeps one entry; the later registration wins.
    assert_eq!(registry.game_names(), vec!["counter".to_string()]);
    let built = registry.build("counter").expect("registered");
    let common = GameCommon::new(PlayerId(1));
    assert_eq!(built.public_state(&common), Value::from(9u64));
}

#[test]
fn registry_builds_known_types_only() {
    let mut registry: GameRegistry<EchoGame> = GameRegistry::new();
    registry.register("echo", EchoGame::new());
    registry.register("other", EchoGame::new());
    assert!(registry.build("echo").is_some());
    assert!(registry.build("missing").is_none());
    assert_eq!(registry.game_names(), vec!["echo".to_string(), "other".to_string()]);
}

#[test]
fn tokens_verify_for_the_exact_player_only() {
    let key = vec![9u8; KEY_LEN];
    let token = ReconnectionSecret::for_player(&key, PlayerId(42));
    assert_eq!(token.tag.len(), TAG_LEN);
    assert!(token.verify(&key, PlayerId(42)));
    assert!(!token.verify(&key, PlayerId(43)));
    // A token is not the identity function of its input.
    let other = ReconnectionSecret::for_player(&key, PlayerId(43));
    assert_ne!(token.tag, other.tag);
    // A different key yields a different, non-verifying tag.
    let other_key = vec![10u8; KEY_LEN];
    assert!(!token.verify(&other_key, PlayerId(42)));
    // The bundled claim verifies as a whole.
    let identity = Identity { player_id: PlayerId(42), reconnection_secret: token };
    assert!(identity.verify(&key));
    let forged = Identity {
        player_id: PlayerId(1),
        reconnection_secret: identity.reconnection_secret.clone(),
    };
    assert!(!forged.verify(&key));
}

#[test]
fn generated_keys_have_the_right_length() {
    let key = generate_secret_key().expect("random generator available");
    assert_eq!(key.len(), KEY_LEN);
}

#[test]
fn finalize_wraps_messages() {
    let m = ClientMessageData::JoinedGames.finalize();
    match m.data {
        ClientMessageData::JoinedGames => {}
        other => panic!("expected JoinedGames, got {:?}", other),
    }
    let reply = ReplyMessage::Success.finalize(MessageId(5));
    match reply {
        ServerMessage::ReplyTo(MessageId(5), ReplyMessage::Success) => {}
        other => panic!("expected ReplyTo, got {:?}", other),
    }
    let sent = ServerSentMessage::Error { message: "boom".to_string() }.finalize();
    match sent {
        ServerMessage::ServerSent(ServerSentMessage::Error { message }) => {
            assert_eq!(message, "boom");
        }
        other => panic!("expected ServerSent, got {:?}", other),
    }
}

#[test]
fn fresh_ids_differ() {
    assert_ne!(PlayerId::new(), PlayerId::new());
    assert_ne!(GameId::new(), GameId::new());
    assert_ne!(MessageId::new(), MessageId::new());
}

#[test]
fn skull_initial_state_and_projection() {
    let game = GamePrivate::new(3);
    let (public, own) = game.for_player(1);
    assert_eq!(public.players.len(), 3);
    assert_eq!(public.actions.len(), 0);
    for p in &public.players {
        assert!(!p.has_point);
        assert_eq!(p.tiles, 4);
        // At the start everyone is known to hold their skull.
        assert_eq!(p.has_skull, Some(true));
    }
    assert_eq!(
        own,
        PlayerPrivate { has_point: false, tiles: 4, has_skull: true, skull_known: true },
    );
}

#[test]
fn skull_projections_hide_secrets() {
    let hidden = PlayerPrivate { has_point: true, tiles: 2, has_skull: true, skull_known: false };
    assert_eq!(hidden.public().has_skull, None);
    assert_eq!(hidden.public().tiles, 2);
    assert!(hidden.public().has_point);
    let known = PlayerPrivate { has_point: false, tiles: 3, has_skull: false, skull_known: true };
    assert_eq!(known.public().has_skull, Some(false));

    assert_eq!(ActionPrivate::Place(Tile::Skull).public(), ActionPublic::Place);
    assert_eq!(ActionPrivate::Place(Tile::Flower).public(), ActionPublic::Place);
    assert_eq!(ActionPrivate::Challenge(Some(2)).public(), ActionPublic::Challenge(Some(2)));
    assert_eq!(ActionPrivate::Reveal(1).public(), ActionPublic::Reveal(1));
}
