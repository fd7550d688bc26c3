//! The wire-level data model: identifiers, client requests, server replies and
//! server-initiated messages, and the signed reconnection identity.

use vstd::prelude::*;

use crate::auth::{auth_tag, auth_verify, mac_of, KEY_LEN};
use crate::random::random_u128;

verus! {

/// A player, independent of any browser session.
#[derive(Debug, Clone, Copy, PartialEq, Eq, Structural)]
pub struct PlayerId(pub u128);

impl PlayerId {
    /// A fresh random identifier.
    pub fn new() -> Self {
        PlayerId(random_u128())
    }
}

/// A game lobby, from creation to disposal.
#[derive(Debug, Clone, Copy, PartialEq, Eq, Structural)]
pub struct GameId(pub u128);

impl GameId {
    /// A fresh random identifier.
    pub fn new() -> Self {
        GameId(random_u128())
    }
}

/// A message id, chosen by the client and used to key the reply.
#[derive(Debug, Clone, Copy, PartialEq, Eq, Structural)]
pub struct MessageId(pub u128);

impl MessageId {
    /// A fresh random identifier.
    pub fn new() -> Self {
        MessageId(random_u128())
    }
}

/// The token this process's key produces for a player: what `for_player`
/// computes and the only tag `verify` accepts for that player.
pub open spec fn token_of(key: Seq<u8>, player_id: PlayerId) -> Seq<u8> {
    mac_of(key, player_id.0)
}

/// When a presented tag passes verification under a key: exactly when it is
/// the token that key produces for that player id.
pub open spec fn token_verifies(key: Seq<u8>, player_id: PlayerId, tag: Seq<u8>) -> bool {
    tag == token_of(key, player_id)
}

/// A secret reconnection token: the keyed tag over a player id, held as its
/// bytes. Presenting it later proves the same process issued that id.
#[derive(Debug, Clone, PartialEq, Eq)]
pub struct ReconnectionSecret {
    pub tag: Vec<u8>,
}

impl ReconnectionSecret {
    /// Sign a player id with the process key.
    pub fn for_player(key: &Vec<u8>, player_id: PlayerId) -> (r: ReconnectionSecret)
        requires
            key@.len() == KEY_LEN,
        ensures
            r.tag@ == token_of(key@, player_id),
    {
        ReconnectionSecret { tag: auth_tag(key, player_id.0) }
    }

    /// Constant-time check: does this token belong to `player_id` under `key`?
    pub fn verify(&self, key: &Vec<u8>, player_id: PlayerId) -> (r: bool)
        requires
            key@.len() == KEY_LEN,
        ensures
            r == token_verifies(key@, player_id, self.tag@),
    {
        auth_verify(key, player_id.0, &self.tag)
    }
}

/// Identity soundness: a tag passes verification for a player id exactly when
/// it is the token this process's key produces for that exact player id; in
/// particular, the token `for_player` just produced always verifies.
pub proof fn lemma_identity_soundness(key: Seq<u8>, player_id: PlayerId, tag: Seq<u8>)
    ensures
        token_verifies(key, player_id, tag) <==> tag == token_of(key, player_id),
        token_verifies(key, player_id, token_of(key, player_id)),
{
}

/// A claimed identity: a player id together with its reconnection token.
#[derive(Debug, Clone, PartialEq, Eq)]
pub struct Identity {
    pub player_id: PlayerId,
    pub reconnection_secret: ReconnectionSecret,
}

impl Identity {
    /// Does the carried token belong to the carried player id under `key`?
    pub fn verify(&self, key: &Vec<u8>) -> (r: bool)
        requires
            key@.len() == KEY_LEN,
        ensures
            r == token_verifies(key@, self.player_id, self.reconnection_secret.tag@),
    {
        self.reconnection_secret.verify(key, self.player_id)
    }
}

/// A message from a client: the reply is keyed by `id`.
#[derive(Debug)]
pub struct ClientMessage {
    pub id: MessageId,
    pub data: ClientMessageData,
}

/// What a client may ask for.
#[derive(Debug)]
pub enum ClientMessageData {
    /// Identify as a brand-new player.
    NewIdentity,
    /// Identify as a returning player, presenting a reconnection token.
    Identify(Identity),
    /// List the registered game types.
    GameModes,
    /// List the lobbies this player is a member of.
    JoinedGames,
    CreateGame(String),
    JoinGame(GameId),
    LeaveGame(GameId),
    KickPlayer(GameId, PlayerId),
    PromoteLeader(GameId, PlayerId),
    /// A game-specific message, handed to the lobby's plug-in.
    Inner(GameId, serde_json::Value),
}

impl ClientMessageData {
    /// Wrap the payload with a fresh message id.
    pub fn finalize(self) -> (r: ClientMessage)
        ensures
            r.data == self,
    {
        ClientMessage { id: MessageId::new(), data: self }
    }
}

/// A message from the server.
#[derive(Debug)]
pub enum ServerMessage {
    /// Server-initiated message.
    ServerSent(ServerSentMessage),
    /// Reply to a client message.
    ReplyTo(MessageId, ReplyMessage),
}

/// A server-initiated message.
#[derive(Debug)]
pub enum ServerSentMessage {
    Error {
        message: String,
    },
    GameInfo {
        id: GameId,
        leader: PlayerId,
        players: Vec<PlayerId>,
        public_state: serde_json::Value,
        private_state: serde_json::Value,
    },
}

impl ServerSentMessage {
    pub fn finalize(self) -> (r: ServerMessage)
        ensures
            r == ServerMessage::ServerSent(self),
    {
        ServerMessage::ServerSent(self)
    }
}

/// The reply to one client message.
#[derive(Debug)]
pub enum ReplyMessage {
    /// Operation was successful, no data to return.
    Success,
    /// A new identity was created, or reconnection succeeded.
    Identity(Identity),
    GameModes(Vec<String>),
    JoinedGames(Vec<GameId>),
    GameCreated(GameId),
    JoinedToGame(GameId),
    /// The plug-in's reply to a game-specific message.
    Inner(serde_json::Value),
    Error(ErrorReply),
}

impl ReplyMessage {
    pub fn finalize(self, reply_to: MessageId) -> (r: ServerMessage)
        ensures
            r == ServerMessage::ReplyTo(reply_to, self),
    {
        ServerMessage::ReplyTo(reply_to, self)
    }
}

/// The fixed taxonomy of semantic errors.
#[derive(Debug)]
pub enum ErrorReply {
    AlreadyIdentified,
    MustIdentifyFirst,
    InvalidGameFormat,
    NoSuchGameLobby,
    NotInThatGame,
    InvalidReconnectionSecret,
    /// A game-defined error value.
    Inner(serde_json::Value),
}

} // verus!
