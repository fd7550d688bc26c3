//! The client side of a session: which message to send when a connection
//! opens, how to route each server message, and how the identification flow
//! reacts to its replies. The socket, the identity storage and the user
//! callbacks stay outside; this state machine is fed plain events and returns
//! the action to perform.

use std::collections::HashMap;

use vstd::prelude::*;

use crate::protocol::{
    ClientMessage, ClientMessageData, ErrorReply, GameId, Identity, MessageId, PlayerId,
    ReplyMessage, ServerMessage, ServerSentMessage,
};

verus! {

broadcast use vstd::std_specs::hash::group_hash_axioms;

/// Why a request is awaiting its reply: it either establishes the identity or
/// belongs to the user of the session.
#[derive(Debug, Clone, Copy, PartialEq, Eq, Structural)]
pub enum RequestKind {
    Identification,
    UserRequest,
}

/// What the caller must do with one incoming server message.
#[derive(Debug)]
pub enum ClientReaction {
    /// Nothing: the message was unsolicited or a duplicate reply.
    Ignore,
    /// Report a server-initiated error.
    ReportError(String),
    /// Report a lobby update.
    Update {
        id: GameId,
        leader: PlayerId,
        players: Vec<PlayerId>,
        public_state: serde_json::Value,
        private_state: serde_json::Value,
    },
    /// The identity is established: persist it and report the session ready.
    Ready(Identity),
    /// The stored identity was stale: discard it and request a fresh one.
    RetryIdentify,
    /// Hand the reply to the user request that awaited it.
    UserReply(MessageId, ReplyMessage),
}

/// One connection's client-side state: the requests in flight and the
/// established identity, if any.
pub struct ClientSession {
    pending: HashMap<u128, RequestKind>,
    player_id: Option<PlayerId>,
}

impl ClientSession {
    /// The in-flight requests, by message id.
    pub closed spec fn pending_map(&self) -> Map<u128, RequestKind> {
        self.pending@
    }

    /// The player id of the established identity, if any.
    pub closed spec fn current_player(&self) -> Option<PlayerId> {
        self.player_id
    }

    pub fn new() -> (r: Self)
        ensures
            r.pending_map() == Map::<u128, RequestKind>::empty(),
            r.current_player() is None,
    {
        ClientSession { pending: HashMap::new(), player_id: None }
    }

    /// The connection opened: identify, as the returning player whose identity
    /// the caller has stored, or as a brand-new one.
    pub fn on_open(&mut self, stored: Option<Identity>, msg_id: MessageId) -> (m: ClientMessage)
        requires
            !old(self).pending_map().contains_key(msg_id.0),
        ensures
            final(self).pending_map() == old(self).pending_map().insert(
                msg_id.0,
                RequestKind::Identification,
            ),
            final(self).current_player() == old(self).current_player(),
            m.id == msg_id,
            stored matches Some(identity) ==> m.data == ClientMessageData::Identify(identity),
            stored is None ==> m.data == ClientMessageData::NewIdentity,
    {
        self.pending.insert(msg_id.0, RequestKind::Identification);
        let data = match stored {
            Some(identity) => ClientMessageData::Identify(identity),
            None => ClientMessageData::NewIdentity,
        };
        ClientMessage { id: msg_id, data }
    }

    /// The stored identity was rejected: ask for a brand-new one.
    pub fn request_new_identity(&mut self, msg_id: MessageId) -> (m: ClientMessage)
        requires
            !old(self).pending_map().contains_key(msg_id.0),
        ensures
            final(self).pending_map() == old(self).pending_map().insert(
                msg_id.0,
                RequestKind::Identification,
            ),
            final(self).current_player() == old(self).current_player(),
            m.id == msg_id,
            m.data == ClientMessageData::NewIdentity,
    {
        self.pending.insert(msg_id.0, RequestKind::Identification);
        ClientMessage { id: msg_id, data: ClientMessageData::NewIdentity }
    }

    /// A user request goes out under a fresh message id; its reply will be
    /// routed back as a `UserReply`.
    pub fn send_request(&mut self, msg_id: MessageId, data: ClientMessageData) -> (m:
        ClientMessage)
        requires
            !old(self).pending_map().contains_key(msg_id.0),
        ensures
            final(self).pending_map() == old(self).pending_map().insert(
                msg_id.0,
                RequestKind::UserRequest,
            ),
            final(self).current_player() == old(self).current_player(),
            m.id == msg_id,
            m.data == data,
    {
        self.pending.insert(msg_id.0, RequestKind::UserRequest);
        ClientMessage { id: msg_id, data }
    }

    /// Route one server message: server-initiated messages go to the caller's
    /// callbacks; a reply resolves the request awaiting it. A reply that
    /// establishes the identity is persisted and reported ready; a rejected
    /// reconnection leads to a fresh identity request.
    pub fn on_server_message(&mut self, message: ServerMessage) -> (r: ClientReaction)
        ensures
            ({
                match message {
                    ServerMessage::ServerSent(sent) => {
                        &&& final(self).pending_map() == old(self).pending_map()
                        &&& final(self).current_player() == old(self).current_player()
                        &&& match sent {
                            ServerSentMessage::Error { message: text } => r
                                == ClientReaction::ReportError(text),
                            ServerSentMessage::GameInfo {
                                id,
                                leader,
                                players,
                                public_state,
                                private_state,
                            } => r matches ClientReaction::Update {
                                id: rid,
                                leader: rleader,
                                players: rplayers,
                                public_state: rpub,
                                private_state: rpriv,
                            } && rid == id && rleader == leader && rplayers == players && rpub
                                == public_state && rpriv == private_state,
                        }
                    },
                    ServerMessage::ReplyTo(mid, reply) => {
                        if !old(self).pending_map().contains_key(mid.0) {
                            &&& r is Ignore
                            &&& final(self).pending_map() == old(self).pending_map()
                            &&& final(self).current_player() == old(self).current_player()
                        } else {
                            &&& final(self).pending_map() == old(self).pending_map().remove(mid.0)
                            &&& match old(self).pending_map()[mid.0] {
                                RequestKind::UserRequest => r == ClientReaction::UserReply(
                                    mid,
                                    reply,
                                ) && final(self).current_player() == old(self).current_player(),
                                RequestKind::Identification => match reply {
                                    ReplyMessage::Identity(identity) => r
                                        == ClientReaction::Ready(identity)
                                        && final(self).current_player()
                                        == Some(identity.player_id),
                                    ReplyMessage::Error(
                                        ErrorReply::InvalidReconnectionSecret,
                                    ) => r is RetryIdentify && final(self).current_player()
                                        == old(self).current_player(),
                                    _ => r is Ignore && final(self).current_player()
                                        == old(self).current_player(),
                                },
                            }
                        }
                    },
                }
            }),
    {
        match message {
            ServerMessage::ServerSent(sent) => match sent {
                ServerSentMessage::Error { message: text } => ClientReaction::ReportError(text),
                ServerSentMessage::GameInfo {
                    id,
                    leader,
                    players,
                    public_state,
                    private_state,
                } => ClientReaction::Update { id, leader, players, public_state, private_state },
            },
            ServerMessage::ReplyTo(mid, reply) => {
                let kind = match self.pending.remove(&mid.0) {
                    None => {
                        return ClientReaction::Ignore;
                    },
                    Some(kind) => kind,
                };
                match kind {
                    RequestKind::UserRequest => ClientReaction::UserReply(mid, reply),
                    RequestKind::Identification => match reply {
                        ReplyMessage::Identity(identity) => {
                            self.player_id = Some(identity.player_id);
                            ClientReaction::Ready(identity)
                        },
                        ReplyMessage::Error(ErrorReply::InvalidReconnectionSecret) => {
                            ClientReaction::RetryIdentify
                        },
                        _ => ClientReaction::Ignore,
                    },
                }
            },
        }
    }
}

} // verus!
