//! The dispatch runtime: the single owner of all connections, player records
//! and lobbies. It consumes one event at a time — connect, disconnect, client
//! message, timer — mutates its maps, calls into the affected lobby's plug-in,
//! and returns the outbound frames the caller must put on the wire. The reply
//! to a request always precedes the broadcasts that request triggered.

use std::collections::HashMap;

use vstd::prelude::*;

use crate::auth::KEY_LEN;
use crate::event_queue::EventQueue;
use crate::game_registry::GameRegistry;
use crate::game_state::{EventId, Game, GameCommon, Lobby};
use crate::protocol::{
    ClientMessage, ClientMessageData, ErrorReply, GameId, Identity, MessageId, PlayerId,
    ReplyMessage, ServerMessage, ServerSentMessage,
};
use crate::protocol::{token_of, token_verifies};
use crate::publish::PublishGameState;
use crate::random::random_u128;

verus! {

broadcast use vstd::std_specs::hash::group_hash_axioms;

/// A browser session, one per accepted socket.
#[derive(Debug, Clone, Copy, PartialEq, Eq, Structural)]
pub struct ConnectionId(pub u128);

impl ConnectionId {
    /// A fresh random identifier.
    pub fn new() -> Self {
        ConnectionId(random_u128())
    }
}

/// The record the runtime keeps per currently connected player: which
/// connection carries the player, and whether an identity was established.
#[derive(Debug, Clone, Copy, PartialEq, Eq, Structural)]
pub struct Player {
    pub conn: u128,
    pub identified: bool,
}

/// One message for the caller to deliver on the given connection.
pub struct OutboundFrame {
    pub conn: ConnectionId,
    pub message: ServerMessage,
}

/// Is this frame a reply to some request?
pub open spec fn is_reply(f: OutboundFrame) -> bool {
    f.message matches ServerMessage::ReplyTo(_, _)
}

/// Is this frame the reply keyed by `mid`?
pub open spec fn is_reply_to(f: OutboundFrame, mid: MessageId) -> bool {
    f.message matches ServerMessage::ReplyTo(m, _) && m == mid
}

/// Is this frame a `GameInfo` frame for lobby `g`?
pub open spec fn is_game_info_for(f: OutboundFrame, g: GameId) -> bool {
    match f.message {
        ServerMessage::ServerSent(
            ServerSentMessage::GameInfo { id, leader: _, players: _, public_state: _, private_state: _ },
        ) => id == g,
        _ => false,
    }
}

/// The two states look the same to every caller: all views are equal.
pub open spec fn same_state<G: Game>(pre: GameServer<G>, post: GameServer<G>) -> bool {
    &&& post.clients_map() == pre.clients_map()
    &&& post.players_map() == pre.players_map()
    &&& post.games_map() == pre.games_map()
    &&& post.game_id_list() == pre.game_id_list()
    &&& post.queue_items() == pre.queue_items()
    &&& post.secret_key() == pre.secret_key()
    &&& post.registry_spec() == pre.registry_spec()
}

/// The queue grew only by entries for lobby `g`; nothing was dropped.
pub open spec fn queue_extended_for(
    pre: Seq<(u64, (GameId, EventId))>,
    post: Seq<(u64, (GameId, EventId))>,
    g: GameId,
) -> bool {
    &&& forall|e: (u64, (GameId, EventId))| pre.contains(e) ==> post.contains(e)
    &&& forall|j: int| 0 <= j < post.len() ==> (pre.contains(post[j]) || post[j].1.0 == g)
}

/// How many entries at the head of a deadline-sorted queue are due at `now`:
/// the length of the longest prefix of passed deadlines.
pub open spec fn due_count(items: Seq<(u64, (GameId, EventId))>, now: u64) -> int
    decreases items.len(),
{
    if items.len() == 0 || items[0].0 > now {
        0
    } else {
        1 + due_count(items.drop_first(), now)
    }
}

/// The due prefix is well-defined: it lies within the queue, every entry in
/// it is due, and the first entry after it (if any) is not.
pub proof fn lemma_due_count_bounds(items: Seq<(u64, (GameId, EventId))>, now: u64)
    ensures
        0 <= due_count(items, now) <= items.len(),
        forall|j: int| 0 <= j < due_count(items, now) ==> items[j].0 <= now,
        due_count(items, now) < items.len() ==> items[due_count(items, now)].0 > now,
    decreases items.len(),
{
    if items.len() == 0 || items[0].0 > now {
    } else {
        lemma_due_count_bounds(items.drop_first(), now);
        let rest = items.drop_first();
        assert forall|j: int| 0 <= j < due_count(items, now) implies items[j].0 <= now by {
            if j > 0 {
                assert(rest[j - 1] == items[j]);
            }
        }
        if due_count(items, now) < items.len() {
            assert(rest[due_count(rest, now)] == items[due_count(items, now)]);
        }
    }
}

/// Taking one lobby out, running a hook on it and putting it back — possibly
/// with new timer entries for it — preserves the runtime invariant, as long as
/// the hook kept the lobby's common state well-formed.
pub proof fn lemma_games_update<G: Game>(
    pre: GameServer<G>,
    post: GameServer<G>,
    gid: u128,
    lobby: Lobby<G>,
)
    requires
        pre.wf(),
        pre.games_map().contains_key(gid),
        post.games_map() == pre.games_map().remove(gid).insert(gid, lobby),
        lobby.common.wf(),
        post.clients_map() == pre.clients_map(),
        post.players_map() == pre.players_map(),
        post.game_id_list() == pre.game_id_list(),
        post.secret_key() == pre.secret_key(),
        post.registry_spec() == pre.registry_spec(),
        forall|j: int|
            0 <= j < post.queue_items().len() ==> (pre.queue_items().contains(
                post.queue_items()[j],
            ) || post.queue_items()[j].1.0.0 == gid),
        forall|i: int, j: int|
            0 <= i < j < post.queue_items().len() ==> post.queue_items()[i].0
                <= post.queue_items()[j].0,
    ensures
        post.wf(),
        post.games_map().dom() =~= pre.games_map().dom(),
        forall|g: u128|
            #[trigger] post.games_map().contains_key(g) && g != gid ==> post.games_map()[g]
                == pre.games_map()[g],
        post.games_map()[gid] == lobby,
{
    assert(post.games_map().dom() =~= pre.games_map().dom());
    assert forall|g: u128|
        #[trigger] post.games_map().contains_key(g) <==> post.game_id_list().contains(g) by {
        assert(pre.games_map().contains_key(g) <==> pre.game_id_list().contains(g));
    }
    assert forall|g: u128|
        #[trigger] post.games_map().contains_key(g) implies post.games_map()[g].common.wf() by {
        if g != gid {
            assert(post.games_map()[g] == pre.games_map()[g]);
            assert(pre.games_map().contains_key(g));
        }
    }
    assert forall|k: int|
        0 <= k < post.queue_items().len() implies post.games_map().contains_key(
        post.queue_items()[k].1.0.0,
    ) by {
        if pre.queue_items().contains(post.queue_items()[k]) {
            let j = choose|j: int|
                0 <= j < pre.queue_items().len() && pre.queue_items()[j] == post.queue_items()[k];
            assert(pre.games_map().contains_key(pre.queue_items()[j].1.0.0));
        }
    }
}

/// Leader well-formedness: in a well-formed runtime — and every event handler
/// here both requires and re-establishes `wf` — every non-empty lobby's leader
/// is one of its members.
pub proof fn lemma_leader_well_formed<G: Game>(s: GameServer<G>, g: u128)
    requires
        s.wf(),
        s.games_map().contains_key(g),
        s.games_map()[g].common.players@.len() > 0,
    ensures
        s.games_map()[g].common.players@.contains(s.games_map()[g].common.leader),
{
}

/// A well-formed `GameInfo` frame stays well-formed across steps that keep
/// the connection and player maps, the lobby set and every lobby's common
/// state: plug-in state may change freely underneath it.
pub proof fn lemma_frame_wf_transfer<G: Game>(
    pre: GameServer<G>,
    post: GameServer<G>,
    f: OutboundFrame,
)
    requires
        pre.game_info_frame_wf(f),
        post.clients_map() == pre.clients_map(),
        post.players_map() == pre.players_map(),
        post.games_map().dom() =~= pre.games_map().dom(),
        forall|g: u128|
            #[trigger] post.games_map().contains_key(g) ==> post.games_map()[g].common
                == pre.games_map()[g].common,
    ensures
        post.game_info_frame_wf(f),
{
    match f.message {
        ServerMessage::ServerSent(
            ServerSentMessage::GameInfo { id, leader: _, players: _, public_state: _, private_state: _ },
        ) => {
            assert(pre.games_map().contains_key(id.0));
            assert(post.games_map().contains_key(id.0));
            assert(post.games_map()[id.0].common == pre.games_map()[id.0].common);
            let p = choose|p: PlayerId|
                {
                    &&& #[trigger] pre.games_map()[id.0].common.is_member(p)
                    &&& pre.players_map().contains_key(p.0)
                    &&& pre.players_map()[p.0].conn == f.conn.0
                };
            assert(post.games_map()[id.0].common.is_member(p));
        },
        _ => {
        },
    }
}

/// The dispatch runtime's state: the authoritative connection, player and
/// lobby maps, the registry, the process secret and the timer queue.
///
/// Every mutation goes through `&mut self` on this one owner, so no two
/// plug-in calls on the same lobby — or any lobby — can ever overlap: the
/// caller's event loop is the single writer.
pub struct GameServer<G: Game> {
    /// Secret key used for signing reconnection tokens.
    secret: Vec<u8>,
    /// Currently connected client connections, to their player ids.
    clients: HashMap<u128, u128>,
    /// Connected players' records; absent for disconnected players.
    players: HashMap<u128, Player>,
    /// All running lobbies.
    games: HashMap<u128, Lobby<G>>,
    /// The lobby ids, for deterministic iteration.
    game_ids: Vec<u128>,
    /// Game type registry.
    registry: GameRegistry<G>,
    /// Pending timer events.
    queue: EventQueue<(GameId, EventId)>,
}

impl<G: Game> GameServer<G> {
    pub closed spec fn secret_key(&self) -> Seq<u8> {
        self.secret@
    }

    pub closed spec fn clients_map(&self) -> Map<u128, u128> {
        self.clients@
    }

    pub closed spec fn players_map(&self) -> Map<u128, Player> {
        self.players@
    }

    pub closed spec fn games_map(&self) -> Map<u128, Lobby<G>> {
        self.games@
    }

    pub closed spec fn game_id_list(&self) -> Seq<u128> {
        self.game_ids@
    }

    pub closed spec fn queue_items(&self) -> Seq<(u64, (GameId, EventId))> {
        self.queue.items()
    }

    pub closed spec fn registry_spec(&self) -> GameRegistry<G> {
        self.registry
    }

    /// Is `p` a member of lobby `g`?
    pub open spec fn lobby_has_member(&self, g: u128, p: PlayerId) -> bool {
        self.games_map().contains_key(g) && self.games_map()[g].common.is_member(p)
    }

    /// The runtime's invariant, held before and after every event:
    /// connections and player records are a bijection; the id list mirrors the
    /// lobby map; every non-empty lobby's leader is a member; every pending
    /// timer entry points at an existing lobby.
    pub open spec fn wf(&self) -> bool {
        &&& self.secret_key().len() == KEY_LEN
        &&& self.game_id_list().no_duplicates()
        &&& forall|g: u128|
            #[trigger] self.games_map().contains_key(g) <==> self.game_id_list().contains(g)
        &&& forall|g: u128|
            #[trigger] self.games_map().contains_key(g) ==> self.games_map()[g].common.wf()
        &&& forall|c: u128|
            #[trigger] self.clients_map().contains_key(c) ==> {
                &&& self.players_map().contains_key(self.clients_map()[c])
                &&& self.players_map()[self.clients_map()[c]].conn == c
            }
        &&& forall|p: u128|
            #[trigger] self.players_map().contains_key(p) ==> {
                &&& self.clients_map().contains_key(self.players_map()[p].conn)
                &&& self.clients_map()[self.players_map()[p].conn] == p
            }
        &&& forall|k: int|
            0 <= k < self.queue_items().len() ==> self.games_map().contains_key(
                self.queue_items()[k].1.0.0,
            )
        &&& forall|i: int, j: int|
            0 <= i < j < self.queue_items().len() ==> self.queue_items()[i].0
                <= self.queue_items()[j].0
    }

    /// A `GameInfo` frame consistent with this state: it reports an existing
    /// lobby with that lobby's current leader and member list, and it is
    /// addressed to the connection of some connected member.
    pub open spec fn game_info_frame_wf(&self, f: OutboundFrame) -> bool {
        match f.message {
            ServerMessage::ServerSent(
                ServerSentMessage::GameInfo {
                    id,
                    leader,
                    players,
                    public_state: _,
                    private_state: _,
                },
            ) => {
                &&& self.games_map().contains_key(id.0)
                &&& leader == self.games_map()[id.0].common.leader
                &&& players@ == self.games_map()[id.0].common.players@
                &&& exists|p: PlayerId|
                    {
                        &&& #[trigger] self.games_map()[id.0].common.is_member(p)
                        &&& self.players_map().contains_key(p.0)
                        &&& self.players_map()[p.0].conn == f.conn.0
                    }
            },
            _ => false,
        }
    }

    /// A fresh runtime with no connections, no lobbies and no pending timers.
    pub fn new(registry: GameRegistry<G>, secret: Vec<u8>) -> (r: Self)
        requires
            secret@.len() == KEY_LEN,
        ensures
            r.wf(),
            r.clients_map() == Map::<u128, u128>::empty(),
            r.players_map() == Map::<u128, Player>::empty(),
            r.games_map() == Map::<u128, Lobby<G>>::empty(),
            r.queue_items().len() == 0,
            r.registry_spec() == registry,
            r.secret_key() == secret@,
    {
        GameServer {
            secret,
            clients: HashMap::new(),
            players: HashMap::new(),
            games: HashMap::new(),
            game_ids: Vec::new(),
            registry,
            queue: EventQueue::new(),
        }
    }

    /// A fresh runtime with a key from the operating system's random
    /// generator; `None` when that generator fails.
    pub fn with_generated_key(registry: GameRegistry<G>) -> (r: Option<Self>)
        ensures
            r matches Some(s) ==> s.wf() && s.clients_map() == Map::<u128, u128>::empty()
                && s.players_map() == Map::<u128, Player>::empty() && s.games_map() == Map::<
                u128,
                Lobby<G>,
            >::empty() && s.queue_items().len() == 0 && s.registry_spec() == registry,
    {
        match crate::auth::generate_secret_key() {
            Some(secret) => Some(GameServer::new(registry, secret)),
            None => None,
        }
    }

    /// The earliest pending timer deadline, for arming the next wait.
    pub fn next_timeout(&self) -> (r: Option<u64>)
        requires
            self.wf(),
        ensures
            r is Some <==> self.queue_items().len() > 0,
            r is Some ==> r.unwrap() == self.queue_items()[0].0,
    {
        self.queue.next_timeout()
    }

    /// A new connection was accepted: bind it to a fresh, unidentified player
    /// record. Rejected (with no state change) when either id is already in
    /// use; the caller then retries with fresh ids.
    pub fn process_connected(&mut self, client: ConnectionId, player_id: PlayerId) -> (accepted:
        bool)
        requires
            old(self).wf(),
        ensures
            final(self).wf(),
            accepted == (!old(self).clients_map().contains_key(client.0) && !old(
                self,
            ).players_map().contains_key(player_id.0)),
            accepted ==> {
                &&& final(self).clients_map() == old(self).clients_map().insert(
                    client.0,
                    player_id.0,
                )
                &&& final(self).players_map() == old(self).players_map().insert(
                    player_id.0,
                    Player { conn: client.0, identified: false },
                )
            },
            !accepted ==> same_state(*old(self), *final(self)),
            final(self).games_map() == old(self).games_map(),
            final(self).queue_items() == old(self).queue_items(),
            final(self).secret_key() == old(self).secret_key(),
            final(self).registry_spec() == old(self).registry_spec(),
            final(self).game_id_list() == old(self).game_id_list(),
    {
        if self.clients.contains_key(&client.0) || self.players.contains_key(&player_id.0) {
            return false;
        }
        self.clients.insert(client.0, player_id.0);
        self.players.insert(player_id.0, Player { conn: client.0, identified: false });
        proof {
            assert(self.games_map() == old(self).games_map());
            assert(self.game_id_list() == old(self).game_id_list());
            assert(self.queue_items() == old(self).queue_items());
            assert(self.secret_key() == old(self).secret_key());
            assert(self.registry_spec() == old(self).registry_spec());
            assert forall|c: u128| #[trigger] self.clients_map().contains_key(c) implies {
                &&& self.players_map().contains_key(self.clients_map()[c])
                &&& self.players_map()[self.clients_map()[c]].conn == c
            } by {
                if c != client.0 {
                    assert(old(self).clients_map().contains_key(c));
                    assert(old(self).clients_map()[c] != player_id.0);
                }
            }
            assert forall|p: u128| #[trigger] self.players_map().contains_key(p) implies {
                &&& self.clients_map().contains_key(self.players_map()[p].conn)
                &&& self.clients_map()[self.players_map()[p].conn] == p
            } by {
                if p != player_id.0 {
                    assert(old(self).players_map().contains_key(p));
                    assert(old(self).players_map()[p].conn != client.0);
                }
            }
        }
        true
    }

    /// Accept a new connection under a freshly drawn random player id; `None`
    /// (with no state change) in the unlikely case the draw collided.
    pub fn connect(&mut self, client: ConnectionId) -> (r: Option<PlayerId>)
        requires
            old(self).wf(),
        ensures
            final(self).wf(),
            r matches Some(p) ==> {
                &&& !old(self).clients_map().contains_key(client.0)
                &&& final(self).clients_map() == old(self).clients_map().insert(client.0, p.0)
                &&& final(self).players_map() == old(self).players_map().insert(
                    p.0,
                    Player { conn: client.0, identified: false },
                )
            },
            r is None ==> same_state(*old(self), *final(self)),
            final(self).games_map() == old(self).games_map(),
            final(self).queue_items() == old(self).queue_items(),
            final(self).secret_key() == old(self).secret_key(),
            final(self).registry_spec() == old(self).registry_spec(),
    {
        let player_id = PlayerId(random_u128());
        if self.process_connected(client, player_id) {
            Some(player_id)
        } else {
            None
        }
    }

    /// The lobby ids of which `player` is a member, each once.
    fn games_with_member(&self, player: PlayerId) -> (r: Vec<u128>)
        requires
            self.wf(),
        ensures
            r@.no_duplicates(),
            forall|j: int|
                0 <= j < r@.len() ==> self.games_map().contains_key(r@[j])
                    && self.games_map()[r@[j]].common.is_member(player),
            forall|g: u128|
                #[trigger] self.games_map().contains_key(g)
                    && self.games_map()[g].common.is_member(player) ==> r@.contains(g),
    {
        let mut out: Vec<u128> = Vec::new();
        let mut i: usize = 0;
        while i < self.game_ids.len()
            invariant
                self.wf(),
                i <= self.game_id_list().len(),
                forall|j1: int, j2: int| 0 <= j1 < j2 < out@.len() ==> out@[j1] != out@[j2],
                forall|j: int|
                    0 <= j < out@.len() ==> self.games_map().contains_key(out@[j])
                        && self.games_map()[out@[j]].common.is_member(player),
                forall|j: int|
                    0 <= j < out@.len() ==> self.game_id_list().subrange(0, i as int).contains(
                        out@[j],
                    ),
                forall|k: int|
                    0 <= k < i && self.games_map().contains_key(self.game_id_list()[k])
                        && self.games_map()[self.game_id_list()[k]].common.is_member(player)
                        ==> out@.contains(self.game_id_list()[k]),
            decreases self.game_id_list().len() - i,
        {
            let gid = self.game_ids[i];
            let ghost pre_out = out@;
            let is_in: bool = match self.games.get(&gid) {
                Some(lobby) => lobby.common.contains_player(&player),
                None => false,
            };
            if is_in {
                proof {
                    assert(!pre_out.contains(gid)) by {
                        if pre_out.contains(gid) {
                            let j = choose|j: int| 0 <= j < pre_out.len() && pre_out[j] == gid;
                            let pref = self.game_id_list().subrange(0, i as int);
                            assert(pref.contains(gid));
                            let k = choose|k: int| 0 <= k < pref.len() && pref[k] == gid;
                            assert(self.game_id_list()[k] == gid);
                            assert(self.game_id_list()[i as int] == gid);
                        }
                    }
                }
                out.push(gid);
            }
            i = i + 1;
            proof {
                crate::publish::lemma_push_contains(pre_out, gid);
                assert forall|j: int|
                    0 <= j < out@.len() implies self.game_id_list().subrange(0, i as int).contains(
                        out@[j],
                    ) by {
                    let prev = self.game_id_list().subrange(0, i as int - 1);
                    let cur = self.game_id_list().subrange(0, i as int);
                    if j < pre_out.len() {
                        assert(prev.contains(pre_out[j]));
                        let k = choose|k: int| 0 <= k < prev.len() && prev[k] == pre_out[j];
                        assert(cur[k] == prev[k]);
                        assert(cur.contains(out@[j]));
                    } else {
                        assert(is_in);
                        assert(out@[j] == gid);
                        assert(cur[i as int - 1] == gid);
                        assert(cur.contains(gid));
                    }
                }
                assert forall|k: int|
                    0 <= k < i && self.games_map().contains_key(self.game_id_list()[k])
                        && self.games_map()[self.game_id_list()[k]].common.is_member(player)
                        implies out@.contains(self.game_id_list()[k]) by {
                    if k < i - 1 {
                        assert(pre_out.contains(self.game_id_list()[k]));
                        let j = choose|j: int|
                            0 <= j < pre_out.len() && pre_out[j] == self.game_id_list()[k];
                        assert(out@[j] == self.game_id_list()[k]);
                    } else {
                        assert(self.game_id_list()[k] == gid);
                        assert(is_in);
                        assert(out@[out@.len() - 1] == gid);
                    }
                }
            }
        }
        proof {
            assert forall|g: u128|
                #[trigger] self.games_map().contains_key(g)
                    && self.games_map()[g].common.is_member(player) implies out@.contains(g) by {
                assert(self.game_id_list().contains(g));
                let k = choose|k: int|
                    0 <= k < self.game_id_list().len() && self.game_id_list()[k] == g;
            }
        }
        out
    }

    /// The `GameInfo` frame of one lobby for one player: present exactly when
    /// the lobby exists, the player is a member, and the player is connected.
    pub fn send_state_to_player(&self, game_id: GameId, player_id: PlayerId) -> (r: Option<
        OutboundFrame,
    >)
        ensures
            r is Some <==> (self.games_map().contains_key(game_id.0)
                && self.games_map()[game_id.0].common.is_member(player_id)
                && self.players_map().contains_key(player_id.0)),
            r matches Some(f) ==> {
                &&& is_game_info_for(f, game_id)
                &&& self.game_info_frame_wf(f)
                &&& f.conn.0 == self.players_map()[player_id.0].conn
                &&& !is_reply(f)
            },
    {
        match self.games.get(&game_id.0) {
            None => None,
            Some(lobby) => {
                if !lobby.common.contains_player(&player_id) {
                    return None;
                }
                match self.players.get(&player_id.0) {
                    None => None,
                    Some(player) => {
                        let players_list = copy_player_ids(&lobby.common.players);
                        let public_state = lobby.public_state();
                        let private_state = lobby.state_for_player(player_id);
                        let f = OutboundFrame {
                            conn: ConnectionId(player.conn),
                            message: ServerMessage::ServerSent(
                                ServerSentMessage::GameInfo {
                                    id: game_id,
                                    leader: lobby.common.leader,
                                    players: players_list,
                                    public_state,
                                    private_state,
                                },
                            ),
                        };
                        proof {
                            assert(self.games_map()[game_id.0].common.is_member(player_id));
                            assert(self.players_map().contains_key(player_id.0));
                            assert(self.players_map()[player_id.0].conn == f.conn.0);
                        }
                        Some(f)
                    },
                }
            },
        }
    }

    /// One `GameInfo` frame for every connected member of the lobby — and at
    /// most one frame per connection; empty when the lobby does not exist.
    #[verifier::rlimit(100)]
    pub fn broadcast_game_state(&self, game_id: GameId) -> (frames: Vec<OutboundFrame>)
        requires
            self.wf(),
        ensures
            forall|i: int|
                0 <= i < frames@.len() ==> is_game_info_for(frames@[i], game_id)
                    && self.game_info_frame_wf(frames@[i]) && !is_reply(frames@[i]),
            forall|p: PlayerId|
                (self.games_map().contains_key(game_id.0)
                    && #[trigger] self.games_map()[game_id.0].common.is_member(p)
                    && self.players_map().contains_key(p.0)) ==> exists|i: int|
                    0 <= i < frames@.len() && frames@[i].conn.0 == self.players_map()[p.0].conn
                        && is_game_info_for(frames@[i], game_id),
            forall|i1: int, i2: int|
                0 <= i1 < i2 < frames@.len() ==> frames@[i1].conn != frames@[i2].conn,
    {
        let mut frames: Vec<OutboundFrame> = Vec::new();
        match self.games.get(&game_id.0) {
            None => frames,
            Some(lobby) => {
                let ghost members = lobby.common.players@;
                proof {
                    assert(self.games_map()[game_id.0].common.wf());
                    assert(GameCommon::sorted(members));
                }
                let mut k: usize = 0;
                while k < lobby.common.players.len()
                    invariant
                        self.wf(),
                        self.games_map().contains_key(game_id.0),
                        members == self.games_map()[game_id.0].common.players@,
                        GameCommon::sorted(members),
                        lobby == self.games_map()[game_id.0],
                        k <= members.len(),
                        forall|i: int|
                            0 <= i < frames@.len() ==> is_game_info_for(frames@[i], game_id)
                                && self.game_info_frame_wf(frames@[i]) && !is_reply(frames@[i]),
                        forall|k2: int|
                            0 <= k2 < k && self.players_map().contains_key(members[k2].0)
                                ==> exists|i: int|
                                0 <= i < frames@.len() && frames@[i].conn.0
                                    == self.players_map()[members[k2].0].conn && is_game_info_for(
                                    frames@[i],
                                    game_id,
                                ),
                        forall|i: int| #![trigger frames@[i]]
                            0 <= i < frames@.len() ==> exists|k2: int|
                                0 <= k2 < k && #[trigger] self.players_map().contains_key(
                                    members[k2].0,
                                ) && frames@[i].conn.0 == self.players_map()[members[k2].0].conn,
                        forall|i1: int, i2: int|
                            0 <= i1 < i2 < frames@.len() ==> frames@[i1].conn != frames@[i2].conn,
                    decreases members.len() - k,
                {
                    let member = lobby.common.players[k];
                    proof {
                        assert(members.contains(member)) by {
                            assert(members[k as int] == member);
                        }
                    }
                    let ghost pre = frames@;
                    match self.send_state_to_player(game_id, member) {
                        Some(f) => {
                            frames.push(f);
                            proof {
                                assert(frames@[frames@.len() - 1] == f);
                                assert forall|i: int| #![trigger frames@[i]]
                                    0 <= i < frames@.len() implies exists|k2: int|
                                    0 <= k2 < k + 1 && #[trigger] self.players_map().contains_key(
                                        members[k2].0,
                                    ) && frames@[i].conn.0
                                        == self.players_map()[members[k2].0].conn by {
                                    if i < pre.len() {
                                        assert(frames@[i] == pre[i]);
                                        let k2 = choose|k2: int|
                                            0 <= k2 < k
                                                && #[trigger] self.players_map().contains_key(
                                                members[k2].0,
                                            ) && pre[i].conn.0
                                                == self.players_map()[members[k2].0].conn;
                                    } else {
                                        assert(members[k as int] == member);
                                        assert(self.players_map().contains_key(member.0));
                                    }
                                }
                                assert forall|i1: int, i2: int|
                                    0 <= i1 < i2 < frames@.len() implies frames@[i1].conn
                                    != frames@[i2].conn by {
                                    if i2 == frames@.len() - 1 {
                                        assert(frames@[i1] == pre[i1]);
                                        let k2 = choose|k2: int|
                                            0 <= k2 < k
                                                && #[trigger] self.players_map().contains_key(
                                                members[k2].0,
                                            ) && pre[i1].conn.0
                                                == self.players_map()[members[k2].0].conn;
                                        if frames@[i1].conn == f.conn {
                                            assert(members[k2].0 < member.0);
                                            assert(f.conn.0 == self.players_map()[member.0].conn);
                                            assert(self.clients_map()[self.players_map()[members[k2].0].conn]
                                                == members[k2].0);
                                            assert(self.clients_map()[self.players_map()[member.0].conn]
                                                == member.0);
                                            assert(false);
                                        }
                                    } else {
                                        assert(frames@[i1] == pre[i1] && frames@[i2] == pre[i2]);
                                    }
                                }
                                assert forall|k2: int|
                                    0 <= k2 < k + 1 && self.players_map().contains_key(
                                        members[k2].0,
                                    ) implies exists|i: int|
                                    0 <= i < frames@.len() && frames@[i].conn.0
                                        == self.players_map()[members[k2].0].conn
                                        && is_game_info_for(frames@[i], game_id) by {
                                    if k2 < k {
                                        let i = choose|i: int|
                                            0 <= i < pre.len() && pre[i].conn.0
                                                == self.players_map()[members[k2].0].conn
                                                && is_game_info_for(pre[i], game_id);
                                        assert(frames@[i] == pre[i]);
                                    } else {
                                        assert(frames@[frames@.len() - 1] == f);
                                    }
                                }
                            }
                        },
                        None => {},
                    }
                    k = k + 1;
                }
                proof {
                    assert forall|p: PlayerId|
                        (self.games_map().contains_key(game_id.0)
                            && #[trigger] self.games_map()[game_id.0].common.is_member(p)
                            && self.players_map().contains_key(p.0)) implies exists|i: int|
                        0 <= i < frames@.len() && frames@[i].conn.0
                            == self.players_map()[p.0].conn && is_game_info_for(
                            frames@[i],
                            game_id,
                        ) by {
                        let k2 = choose|k2: int| 0 <= k2 < members.len() && members[k2] == p;
                    }
                }
                frames
            },
        }
    }

    /// Flush an accumulated publish plan: one `GameInfo` frame for every
    /// planned (lobby, player) pair whose lobby exists and whose player is a
    /// connected member — and at most one frame per such pair.
    pub fn run_publish(&self, publish: PublishGameState) -> (frames: Vec<OutboundFrame>)
        requires
            self.wf(),
            publish.wf(),
        ensures
            forall|i: int|
                0 <= i < frames@.len() ==> self.game_info_frame_wf(frames@[i]) && !is_reply(
                    frames@[i],
                ),
            forall|i: int, g: GameId|
                0 <= i < frames@.len() && is_game_info_for(frames@[i], g)
                    ==> publish.plan().contains_key(g.0),
            forall|g: GameId, p: PlayerId|
                {
                    (publish.planned_for(g.0, p.0) && self.games_map().contains_key(g.0)
                        && #[trigger] self.games_map()[g.0].common.is_member(p)
                        && #[trigger] self.players_map().contains_key(p.0)) ==> exists|i: int|
                        0 <= i < frames@.len() && frames@[i].conn.0
                            == self.players_map()[p.0].conn && is_game_info_for(frames@[i], g)
                },
            forall|i1: int, i2: int, g: GameId|
                0 <= i1 < i2 < frames@.len() && is_game_info_for(frames@[i1], g)
                    && is_game_info_for(frames@[i2], g) ==> frames@[i1].conn != frames@[i2].conn,
            forall|i: int, g: GameId|
                0 <= i < frames@.len() && is_game_info_for(frames@[i], g) ==> match publish.plan()[
                    g.0
                ] {
                    Some(v) => self.clients_map().contains_key(frames@[i].conn.0) && v@.contains(
                        self.clients_map()[frames@[i].conn.0],
                    ),
                    None => true,
                },
    {
        let mut frames: Vec<OutboundFrame> = Vec::new();
        let ids = publish.planned_ids();
        let ghost order = publish.order_list();
        let mut i: usize = 0;
        while i < ids.len()
            invariant
                self.wf(),
                publish.wf(),
                ids@ == order,
                order == publish.order_list(),
                i <= order.len(),
                forall|j: int|
                    0 <= j < frames@.len() ==> self.game_info_frame_wf(frames@[j]) && !is_reply(
                        frames@[j],
                    ),
                forall|j: int, g2: GameId|
                    0 <= j < frames@.len() && is_game_info_for(frames@[j], g2)
                        ==> publish.plan().contains_key(g2.0),
                forall|j: int, k2: int|
                    0 <= j < frames@.len() && i <= k2 < order.len() ==> !is_game_info_for(
                        frames@[j],
                        GameId(order[k2]),
                    ),
                forall|j1: int, j2: int, g2: GameId|
                    0 <= j1 < j2 < frames@.len() && is_game_info_for(frames@[j1], g2)
                        && is_game_info_for(frames@[j2], g2) ==> frames@[j1].conn
                        != frames@[j2].conn,
                forall|j: int, g2: GameId|
                    0 <= j < frames@.len() && is_game_info_for(frames@[j], g2) ==> match publish.plan()[
                        g2.0
                    ] {
                        Some(v) => self.clients_map().contains_key(frames@[j].conn.0)
                            && v@.contains(self.clients_map()[frames@[j].conn.0]),
                        None => true,
                    },
                forall|k: int, p: PlayerId|
                    {
                        (0 <= k < i && publish.planned_for(order[k], p.0)
                            && self.games_map().contains_key(order[k])
                            && #[trigger] self.games_map()[order[k]].common.is_member(p)
                            && #[trigger] self.players_map().contains_key(p.0)) ==> exists|j: int|
                            0 <= j < frames@.len() && frames@[j].conn.0
                                == self.players_map()[p.0].conn && is_game_info_for(
                                frames@[j],
                                GameId(order[k]),
                            )
                    },
            decreases order.len() - i,
        {
            let g = ids[i];
            let ghost pre = frames@;
            proof {
                assert(publish.plan().contains_key(g)) by {
                    assert(order[i as int] == g);
                    assert(order.contains(g));
                }
                assert forall|j: int|
                    0 <= j < pre.len() implies !is_game_info_for(pre[j], GameId(g)) by {
                    assert(order[i as int] == g);
                    assert(!is_game_info_for(frames@[j], GameId(order[i as int])));
                }
            }
            match publish.audience(g) {
                None => {
                    proof {
                        assert(false);
                    }
                },
                Some(None) => {
                    let bs = self.broadcast_game_state(GameId(g));
                    let ghost bsv = bs@;
                    let mut bs = bs;
                    frames.append(&mut bs);
                    proof {
                        assert(frames@ == pre + bsv);
                        assert forall|j: int| #![trigger frames@[j]]
                            0 <= j < frames@.len() implies self.game_info_frame_wf(frames@[j])
                            && !is_reply(frames@[j]) by {
                            if j < pre.len() {
                                assert(frames@[j] == pre[j]);
                            } else {
                                assert(frames@[j] == bsv[j - pre.len()]);
                            }
                        }
                        assert forall|j: int, g2: GameId|
                            0 <= j < frames@.len() && is_game_info_for(frames@[j], g2)
                                implies publish.plan().contains_key(g2.0) by {
                            if j < pre.len() {
                                assert(frames@[j] == pre[j]);
                            } else {
                                assert(frames@[j] == bsv[j - pre.len()]);
                                assert(is_game_info_for(frames@[j], GameId(g)));
                                assert(g2 == GameId(g));
                            }
                        }
                        assert forall|j: int, k2: int|
                            0 <= j < frames@.len() && i + 1 <= k2 < order.len()
                                implies !is_game_info_for(frames@[j], GameId(order[k2])) by {
                            if j < pre.len() {
                                assert(frames@[j] == pre[j]);
                                assert(!is_game_info_for(frames@[j], GameId(order[k2])));
                            } else {
                                assert(frames@[j] == bsv[j - pre.len()]);
                                assert(is_game_info_for(frames@[j], GameId(g)));
                                if is_game_info_for(frames@[j], GameId(order[k2])) {
                                    assert(GameId(order[k2]) == GameId(g));
                                    assert(order[k2] == order[i as int]);
                                    assert(false);
                                }
                            }
                        }
                        assert forall|j: int, g2: GameId|
                            0 <= j < frames@.len() && is_game_info_for(frames@[j], g2)
                                implies match publish.plan()[g2.0] {
                                Some(v) => self.clients_map().contains_key(frames@[j].conn.0)
                                    && v@.contains(self.clients_map()[frames@[j].conn.0]),
                                None => true,
                            } by {
                            if j < pre.len() {
                                assert(frames@[j] == pre[j]);
                            } else {
                                assert(frames@[j] == bsv[j - pre.len()]);
                                assert(is_game_info_for(frames@[j], GameId(g)));
                                assert(g2 == GameId(g));
                                assert(publish.plan()[g2.0] is None);
                            }
                        }
                        assert forall|j1: int, j2: int, g2: GameId|
                            0 <= j1 < j2 < frames@.len() && is_game_info_for(frames@[j1], g2)
                                && is_game_info_for(frames@[j2], g2) implies frames@[j1].conn
                            != frames@[j2].conn by {
                            if j2 < pre.len() {
                                assert(frames@[j1] == pre[j1] && frames@[j2] == pre[j2]);
                            } else if j1 >= pre.len() {
                                assert(frames@[j1] == bsv[j1 - pre.len()]);
                                assert(frames@[j2] == bsv[j2 - pre.len()]);
                            } else {
                                assert(frames@[j1] == pre[j1]);
                                assert(frames@[j2] == bsv[j2 - pre.len()]);
                                assert(is_game_info_for(frames@[j2], GameId(g)));
                                assert(g2 == GameId(g));
                                assert(!is_game_info_for(pre[j1], GameId(g)));
                                assert(false);
                            }
                        }
                        assert forall|k: int, p: PlayerId|
                            {
                                (0 <= k < i + 1 && publish.planned_for(order[k], p.0)
                                    && self.games_map().contains_key(order[k])
                                    && #[trigger] self.games_map()[order[k]].common.is_member(p)
                                    && #[trigger] self.players_map().contains_key(p.0))
                            } implies exists|j: int|
                            0 <= j < frames@.len() && frames@[j].conn.0
                                == self.players_map()[p.0].conn && is_game_info_for(
                                frames@[j],
                                GameId(order[k]),
                            ) by {
                            if k < i {
                                let j = choose|j: int|
                                    0 <= j < pre.len() && pre[j].conn.0
                                        == self.players_map()[p.0].conn && is_game_info_for(
                                        pre[j],
                                        GameId(order[k]),
                                    );
                                assert(frames@[j] == pre[j]);
                            } else {
                                assert(order[k] == g);
                                assert(GameId(g).0 == g);
                                assert(self.games_map()[GameId(g).0].common.is_member(p));
                                let j0 = choose|j0: int|
                                    0 <= j0 < bsv.len() && bsv[j0].conn.0
                                        == self.players_map()[p.0].conn && is_game_info_for(
                                        bsv[j0],
                                        GameId(g),
                                    );
                                assert(frames@[pre.len() + j0] == bsv[j0]);
                            }
                        }
                    }
                },
                Some(Some(targets)) => {
                    let ghost tv = targets@;
                    proof {
                        assert(publish.plan()[g] matches Some(v0) && tv == v0@);
                        assert(tv.no_duplicates());
                    }
                    let mut t: usize = 0;
                    while t < targets.len()
                        invariant
                            self.wf(),
                            publish.wf(),
                            publish.plan().contains_key(g),
                            publish.plan()[g] matches Some(v0) && tv == v0@,
                            tv == targets@,
                            tv.no_duplicates(),
                            t <= tv.len(),
                            frames@.len() >= pre.len(),
                            forall|j: int| 0 <= j < pre.len() ==> frames@[j] == pre[j],
                            forall|j: int|
                                pre.len() <= j < frames@.len() ==> is_game_info_for(
                                    frames@[j],
                                    GameId(g),
                                ) && self.game_info_frame_wf(frames@[j]) && !is_reply(frames@[j]),
                            forall|j: int| #![trigger frames@[j]]
                                pre.len() <= j < frames@.len() ==> exists|t2: int|
                                    0 <= t2 < t && #[trigger] self.players_map().contains_key(
                                        tv[t2],
                                    ) && frames@[j].conn.0 == self.players_map()[tv[t2]].conn,
                            forall|j1: int, j2: int|
                                pre.len() <= j1 < j2 < frames@.len() ==> frames@[j1].conn
                                    != frames@[j2].conn,
                            forall|t2: int|
                                {
                                    (0 <= t2 < t && self.games_map().contains_key(g)
                                        && self.games_map()[g].common.is_member(
                                        PlayerId(tv[t2]),
                                    ) && #[trigger] self.players_map().contains_key(tv[t2]))
                                        ==> exists|j: int|
                                        0 <= j < frames@.len() && frames@[j].conn.0
                                            == self.players_map()[tv[t2]].conn
                                            && is_game_info_for(frames@[j], GameId(g))
                                },
                        decreases tv.len() - t,
                    {
                        let target = targets[t];
                        let ghost fpre = frames@;
                        match self.send_state_to_player(GameId(g), PlayerId(target)) {
                            Some(f) => {
                                frames.push(f);
                                proof {
                                    assert(frames@[frames@.len() - 1] == f);
                                    assert(f.conn.0 == self.players_map()[target].conn);
                                    assert forall|j: int| #![trigger frames@[j]]
                                        pre.len() <= j < frames@.len() implies exists|t2: int|
                                        0 <= t2 < t + 1
                                            && #[trigger] self.players_map().contains_key(tv[t2])
                                            && frames@[j].conn.0
                                            == self.players_map()[tv[t2]].conn by {
                                        if j < fpre.len() {
                                            assert(frames@[j] == fpre[j]);
                                            let t2 = choose|t2: int|
                                                0 <= t2 < t
                                                    && #[trigger] self.players_map().contains_key(
                                                    tv[t2],
                                                ) && fpre[j].conn.0
                                                    == self.players_map()[tv[t2]].conn;
                                        } else {
                                            assert(tv[t as int] == target);
                                        }
                                    }
                                    assert forall|j1: int, j2: int|
                                        pre.len() <= j1 < j2 < frames@.len() implies frames@[j1].conn
                                        != frames@[j2].conn by {
                                        if j2 == frames@.len() - 1 {
                                            assert(frames@[j1] == fpre[j1]);
                                            let t2 = choose|t2: int|
                                                0 <= t2 < t
                                                    && #[trigger] self.players_map().contains_key(
                                                    tv[t2],
                                                ) && fpre[j1].conn.0
                                                    == self.players_map()[tv[t2]].conn;
                                            if frames@[j1].conn == f.conn {
                                                assert(tv[t2] != tv[t as int]);
                                                assert(self.players_map()[tv[t2]].conn
                                                    == self.players_map()[target].conn);
                                                assert(self.clients_map()[self.players_map()[tv[t2]].conn]
                                                    == tv[t2]);
                                                assert(self.clients_map()[self.players_map()[target].conn]
                                                    == target);
                                                assert(false);
                                            }
                                        } else {
                                            assert(frames@[j1] == fpre[j1]);
                                            assert(frames@[j2] == fpre[j2]);
                                        }
                                    }
                                    assert forall|t2: int|
                                        {
                                            (0 <= t2 < t + 1 && self.games_map().contains_key(g)
                                                && self.games_map()[g].common.is_member(
                                                PlayerId(tv[t2]),
                                            ) && #[trigger] self.players_map().contains_key(
                                                tv[t2],
                                            ))
                                        } implies exists|j: int|
                                        0 <= j < frames@.len() && frames@[j].conn.0
                                            == self.players_map()[tv[t2]].conn
                                            && is_game_info_for(frames@[j], GameId(g)) by {
                                        if t2 < t {
                                            let j = choose|j: int|
                                                0 <= j < fpre.len() && fpre[j].conn.0
                                                    == self.players_map()[tv[t2]].conn
                                                    && is_game_info_for(fpre[j], GameId(g));
                                            assert(frames@[j] == fpre[j]);
                                        } else {
                                            assert(frames@[frames@.len() - 1] == f);
                                        }
                                    }
                                }
                            },
                            None => {},
                        }
                        t = t + 1;
                    }
                    proof {
                        assert forall|j: int| #![trigger frames@[j]]
                            0 <= j < frames@.len() implies self.game_info_frame_wf(frames@[j])
                            && !is_reply(frames@[j]) by {
                            if j < pre.len() {
                                assert(frames@[j] == pre[j]);
                            }
                        }
                        assert forall|j: int, g2: GameId|
                            0 <= j < frames@.len() && is_game_info_for(frames@[j], g2)
                                implies publish.plan().contains_key(g2.0) by {
                            if j < pre.len() {
                                assert(frames@[j] == pre[j]);
                            } else {
                                assert(is_game_info_for(frames@[j], GameId(g)));
                                assert(g2 == GameId(g));
                            }
                        }
                        assert forall|j: int, k2: int|
                            0 <= j < frames@.len() && i + 1 <= k2 < order.len()
                                implies !is_game_info_for(frames@[j], GameId(order[k2])) by {
                            if j < pre.len() {
                                assert(frames@[j] == pre[j]);
                                assert(!is_game_info_for(frames@[j], GameId(order[k2])));
                            } else {
                                assert(is_game_info_for(frames@[j], GameId(g)));
                                if is_game_info_for(frames@[j], GameId(order[k2])) {
                                    assert(GameId(order[k2]) == GameId(g));
                                    assert(order[k2] == order[i as int]);
                                    assert(false);
                                }
                            }
                        }
                        assert forall|j1: int, j2: int, g2: GameId|
                            0 <= j1 < j2 < frames@.len() && is_game_info_for(frames@[j1], g2)
                                && is_game_info_for(frames@[j2], g2) implies frames@[j1].conn
                            != frames@[j2].conn by {
                            if j2 < pre.len() {
                                assert(frames@[j1] == pre[j1] && frames@[j2] == pre[j2]);
                            } else if j1 >= pre.len() {
                            } else {
                                assert(frames@[j1] == pre[j1]);
                                assert(is_game_info_for(frames@[j2], GameId(g)));
                                assert(g2 == GameId(g));
                                assert(!is_game_info_for(pre[j1], GameId(g)));
                                assert(false);
                            }
                        }
                        assert forall|j: int, g2: GameId|
                            0 <= j < frames@.len() && is_game_info_for(frames@[j], g2)
                                implies match publish.plan()[g2.0] {
                                Some(v) => self.clients_map().contains_key(frames@[j].conn.0)
                                    && v@.contains(self.clients_map()[frames@[j].conn.0]),
                                None => true,
                            } by {
                            if j < pre.len() {
                                assert(frames@[j] == pre[j]);
                            } else {
                                assert(is_game_info_for(frames@[j], GameId(g)));
                                assert(g2 == GameId(g));
                                let t2 = choose|t2: int|
                                    0 <= t2 < tv.len()
                                        && #[trigger] self.players_map().contains_key(tv[t2])
                                        && frames@[j].conn.0 == self.players_map()[tv[t2]].conn;
                                assert(self.clients_map().contains_key(
                                    self.players_map()[tv[t2]].conn,
                                ));
                                assert(self.clients_map()[self.players_map()[tv[t2]].conn]
                                    == tv[t2]);
                                assert(tv.contains(tv[t2]));
                            }
                        }
                        assert forall|k: int, p: PlayerId|
                            {
                                (0 <= k < i + 1 && publish.planned_for(order[k], p.0)
                                    && self.games_map().contains_key(order[k])
                                    && #[trigger] self.games_map()[order[k]].common.is_member(p)
                                    && #[trigger] self.players_map().contains_key(p.0))
                            } implies exists|j: int|
                            0 <= j < frames@.len() && frames@[j].conn.0
                                == self.players_map()[p.0].conn && is_game_info_for(
                                frames@[j],
                                GameId(order[k]),
                            ) by {
                            if k < i {
                                let j = choose|j: int|
                                    0 <= j < pre.len() && pre[j].conn.0
                                        == self.players_map()[p.0].conn && is_game_info_for(
                                        pre[j],
                                        GameId(order[k]),
                                    );
                                assert(frames@[j] == pre[j]);
                            } else {
                                assert(order[k] == g);
                                assert(publish.planned_for(g, p.0));
                                assert(tv.contains(p.0));
                                let t2 = choose|t2: int| 0 <= t2 < tv.len() && tv[t2] == p.0;
                                assert(p == PlayerId(p.0));
                                assert(self.games_map()[g].common.is_member(PlayerId(tv[t2])));
                            }
                        }
                    }
                },
            }
            i = i + 1;
        }
        proof {
            assert forall|g: GameId, p: PlayerId|
                {
                    (publish.planned_for(g.0, p.0) && self.games_map().contains_key(g.0)
                        && #[trigger] self.games_map()[g.0].common.is_member(p)
                        && #[trigger] self.players_map().contains_key(p.0))
                } implies exists|i: int|
                0 <= i < frames@.len() && frames@[i].conn.0 == self.players_map()[p.0].conn
                    && is_game_info_for(frames@[i], g) by {
                assert(order.contains(g.0));
                let k = choose|k: int| 0 <= k < order.len() && order[k] == g.0;
                assert(GameId(order[k]) == g);
            }
        }
        frames
    }

    /// A connection closed. Both the connection binding and the player record
    /// go away, but lobby membership persists, so the player can resume with
    /// a reconnection token. Affected lobbies are told and publish as they
    /// request. Unknown connections are ignored.
    pub fn process_disconnected(&mut self, client: ConnectionId) -> (frames: Vec<OutboundFrame>)
        requires
            old(self).wf(),
        ensures
            final(self).wf(),
            !old(self).clients_map().contains_key(client.0) ==> same_state(
                *old(self),
                *final(self),
            ) && frames@.len() == 0,
            old(self).clients_map().contains_key(client.0) ==> {
                &&& final(self).clients_map() == old(self).clients_map().remove(client.0)
                &&& final(self).players_map() == old(self).players_map().remove(
                    old(self).clients_map()[client.0],
                )
            },
            final(self).games_map().dom() =~= old(self).games_map().dom(),
            forall|g: u128|
                #[trigger] final(self).games_map().contains_key(g)
                    ==> final(self).games_map()[g].common == old(self).games_map()[g].common,
            final(self).secret_key() == old(self).secret_key(),
            final(self).registry_spec() == old(self).registry_spec(),
            final(self).game_id_list() == old(self).game_id_list(),
            forall|i: int|
                0 <= i < frames@.len() ==> !is_reply(frames@[i])
                    && final(self).game_info_frame_wf(frames@[i]),
    {
        if !self.clients.contains_key(&client.0) {
            return Vec::new();
        }
        let p = match self.clients.remove(&client.0) {
            None => {
                proof {
                    assert(false);
                }
                return Vec::new();
            },
            Some(p) => p,
        };
        self.players.remove(&p);
        proof {
            assert(self.games_map() == old(self).games_map());
            assert(self.game_id_list() == old(self).game_id_list());
            assert(self.queue_items() == old(self).queue_items());
            assert(self.secret_key() == old(self).secret_key());
            assert(self.registry_spec() == old(self).registry_spec());
            assert forall|c: u128| #[trigger] self.clients_map().contains_key(c) implies {
                &&& self.players_map().contains_key(self.clients_map()[c])
                &&& self.players_map()[self.clients_map()[c]].conn == c
            } by {
                assert(old(self).clients_map().contains_key(c));
                if old(self).clients_map()[c] == p {
                    assert(old(self).players_map()[p].conn == client.0);
                    assert(old(self).clients_map()[client.0] == p);
                    assert(c == client.0);
                    assert(false);
                }
            }
            assert forall|q: u128| #[trigger] self.players_map().contains_key(q) implies {
                &&& self.clients_map().contains_key(self.players_map()[q].conn)
                &&& self.clients_map()[self.players_map()[q].conn] == q
            } by {
                assert(old(self).players_map().contains_key(q));
                if old(self).players_map()[q].conn == client.0 {
                    assert(old(self).clients_map()[client.0] == q);
                    assert(q == p);
                    assert(false);
                }
            }
        }
        let player = PlayerId(p);
        let affected = self.games_with_member(player);
        let mut publish = PublishGameState::new();
        let ghost mid = *self;
        let mut a: usize = 0;
        while a < affected.len()
            invariant
                self.wf(),
                publish.wf(),
                a <= affected@.len(),
                forall|j: int| 0 <= j < affected@.len() ==> mid.games_map().contains_key(
                    affected@[j],
                ),
                self.clients_map() == mid.clients_map(),
                self.players_map() == mid.players_map(),
                self.games_map().dom() =~= mid.games_map().dom(),
                forall|g: u128|
                    #[trigger] self.games_map().contains_key(g) ==> self.games_map()[g].common
                        == mid.games_map()[g].common,
                self.secret_key() == mid.secret_key(),
                self.registry_spec() == mid.registry_spec(),
                self.game_id_list() == mid.game_id_list(),
            decreases affected@.len() - a,
        {
            let gid = affected[a];
            let ghost pre_step = *self;
            match self.games.remove(&gid) {
                Some(mut lobby) => {
                    let updates = lobby.on_disconnect(player);
                    let ghost lobby_v = lobby;
                    self.games.insert(gid, lobby);
                    proof {
                        assert(self.queue_items() == pre_step.queue_items());
                        assert(self.queue.wf());
                    }
                    updates.apply(GameId(gid), &mut publish, &mut self.queue);
                    proof {
                        assert(self.games_map() == pre_step.games_map().remove(gid).insert(
                            gid,
                            lobby_v,
                        ));
                        assert forall|j: int|
                            0 <= j < self.queue_items().len() implies (
                        pre_step.queue_items().contains(self.queue_items()[j])
                            || self.queue_items()[j].1.0.0 == gid) by {
                            assert(pre_step.queue_items().contains(self.queue_items()[j])
                                || self.queue_items()[j].1.0 == GameId(gid));
                        }
                        lemma_games_update(pre_step, *self, gid, lobby_v);
                        assert(self.games_map().dom() =~= mid.games_map().dom());
                        assert forall|g: u128|
                            #[trigger] self.games_map().contains_key(g) implies self.games_map()[g].common
                            == mid.games_map()[g].common by {
                            if g != gid {
                                assert(self.games_map()[g] == pre_step.games_map()[g]);
                            } else {
                                assert(self.games_map()[gid] == lobby_v);
                                assert(lobby_v.common == pre_step.games_map()[gid].common);
                            }
                        }
                    }
                },
                None => {
                    proof {
                        assert(false);
                    }
                },
            }
            a = a + 1;
        }
        self.run_publish(publish)
    }

    /// A timer entry fired. When its lobby still exists, the plug-in's
    /// `on_event` runs and its updates are enacted; a stale entry whose lobby
    /// is gone does nothing at all.
    pub fn process_timer(&mut self, game_id: GameId, event_id: EventId) -> (frames: Vec<
        OutboundFrame,
    >)
        requires
            old(self).wf(),
        ensures
            final(self).wf(),
            !old(self).games_map().contains_key(game_id.0) ==> same_state(
                *old(self),
                *final(self),
            ) && frames@.len() == 0,
            final(self).clients_map() == old(self).clients_map(),
            final(self).players_map() == old(self).players_map(),
            final(self).games_map().dom() =~= old(self).games_map().dom(),
            forall|g: u128|
                #[trigger] final(self).games_map().contains_key(g)
                    ==> final(self).games_map()[g].common == old(self).games_map()[g].common,
            final(self).secret_key() == old(self).secret_key(),
            final(self).registry_spec() == old(self).registry_spec(),
            final(self).game_id_list() == old(self).game_id_list(),
            queue_extended_for(old(self).queue_items(), final(self).queue_items(), game_id),
            forall|i: int|
                0 <= i < frames@.len() ==> is_game_info_for(frames@[i], game_id)
                    && final(self).game_info_frame_wf(frames@[i]) && !is_reply(frames@[i]),
    {
        if !self.games.contains_key(&game_id.0) {
            return Vec::new();
        }
        match self.games.remove(&game_id.0) {
            None => Vec::new(),
            Some(mut lobby) => {
                let updates = lobby.on_event(event_id);
                let ghost lobby_v = lobby;
                self.games.insert(game_id.0, lobby);
                proof {
                    assert(self.queue_items() == old(self).queue_items());
                    assert(self.queue.wf());
                }
                let mut publish = PublishGameState::new();
                updates.apply(GameId(game_id.0), &mut publish, &mut self.queue);
                proof {
                    assert(self.games_map() == old(self).games_map().remove(game_id.0).insert(
                        game_id.0,
                        lobby_v,
                    ));
                    assert forall|j: int|
                        0 <= j < self.queue_items().len() implies (old(
                        self,
                    ).queue_items().contains(self.queue_items()[j]) || self.queue_items()[j].1.0.0
                        == game_id.0) by {
                        assert(old(self).queue_items().contains(self.queue_items()[j])
                            || self.queue_items()[j].1.0 == GameId(game_id.0));
                    }
                    lemma_games_update(*old(self), *self, game_id.0, lobby_v);
                    assert forall|g: u128|
                        #[trigger] self.games_map().contains_key(g) implies self.games_map()[g].common
                        == old(self).games_map()[g].common by {
                        if g != game_id.0 {
                            assert(self.games_map()[g] == old(self).games_map()[g]);
                        } else {
                            assert(self.games_map()[game_id.0] == lobby_v);
                            assert(lobby_v.common == old(self).games_map()[game_id.0].common);
                        }
                    }
                    assert(queue_extended_for(
                        old(self).queue_items(),
                        self.queue_items(),
                        game_id,
                    ));
                }
                let frames = self.run_publish(publish);
                proof {
                    assert forall|i: int| 0 <= i < frames@.len() implies is_game_info_for(
                        frames@[i],
                        game_id,
                    ) by {
                        let f = frames@[i];
                        assert(self.game_info_frame_wf(f));
                        match f.message {
                            ServerMessage::ServerSent(
                                ServerSentMessage::GameInfo {
                                    id,
                                    leader: _,
                                    players: _,
                                    public_state: _,
                                    private_state: _,
                                },
                            ) => {
                                assert(is_game_info_for(f, id));
                                assert(publish.plan().contains_key(id.0));
                                assert(id.0 == game_id.0);
                                assert(id == game_id);
                            },
                            _ => {
                                assert(false);
                            },
                        }
                    }
                }
                frames
            },
        }
    }

    /// Pop the entries due at `now`: exactly the longest queue prefix of
    /// passed deadlines, in order. Nothing else changes.
    pub fn pop_due_entries(&mut self, now: u64) -> (due: Vec<(GameId, EventId)>)
        requires
            old(self).wf(),
        ensures
            final(self).wf(),
            final(self).clients_map() == old(self).clients_map(),
            final(self).players_map() == old(self).players_map(),
            final(self).games_map() == old(self).games_map(),
            final(self).game_id_list() == old(self).game_id_list(),
            final(self).secret_key() == old(self).secret_key(),
            final(self).registry_spec() == old(self).registry_spec(),
            due@.len() == due_count(old(self).queue_items(), now),
            final(self).queue_items() == old(self).queue_items().skip(due@.len() as int),
            forall|k: int|
                0 <= k < due@.len() ==> due@[k] == #[trigger] old(self).queue_items()[k].1
                    && old(self).queue_items()[k].0 <= now,
    {
        let ghost oldq = old(self).queue_items();
        let mut due: Vec<(GameId, EventId)> = Vec::new();
        loop
            invariant
                self.wf(),
                self.clients_map() == old(self).clients_map(),
                self.players_map() == old(self).players_map(),
                self.games_map() == old(self).games_map(),
                self.game_id_list() == old(self).game_id_list(),
                self.secret_key() == old(self).secret_key(),
                self.registry_spec() == old(self).registry_spec(),
                due@.len() <= oldq.len(),
                self.queue_items() == oldq.skip(due@.len() as int),
                forall|k: int|
                    0 <= k < due@.len() ==> due@[k] == #[trigger] oldq[k].1 && oldq[k].0 <= now,
                due_count(oldq, now) == due@.len() + due_count(self.queue_items(), now),
            ensures
                due_count(oldq, now) == due@.len(),
            decreases self.queue_items().len(),
        {
            let ghost pre_items = self.queue_items();
            match self.queue.pop_completed(now) {
                Some(entry) => {
                    proof {
                        pre_items.remove_ensures(0);
                        assert forall|k: int|
                            0 <= k < self.queue_items().len() implies self.games_map().contains_key(
                                self.queue_items()[k].1.0.0,
                            ) by {
                            assert(self.queue_items()[k] == pre_items[k + 1]);
                        }
                        assert(self.queue_items() =~= pre_items.drop_first());
                        assert(pre_items[0].0 <= now);
                        assert(due_count(pre_items, now) == 1 + due_count(
                            pre_items.drop_first(),
                            now,
                        ));
                        assert(pre_items[0] == oldq[due@.len() as int]);
                        assert(self.queue_items() =~= oldq.skip(due@.len() as int + 1));
                    }
                    due.push(entry);
                },
                None => {
                    proof {
                        assert(due_count(pre_items, now) == 0);
                    }
                    break ;
                },
            }
        }
        due
    }

    /// Pop every entry already due at `now` — the longest queue prefix whose
    /// deadlines have passed — and process each once, in deadline order.
    /// Entries a plug-in schedules while this runs, due or not, wait for the
    /// next call, so each due entry fires exactly once per delivery.
    pub fn process_due_timers(&mut self, now: u64) -> (frames: Vec<OutboundFrame>)
        requires
            old(self).wf(),
        ensures
            final(self).wf(),
            final(self).clients_map() == old(self).clients_map(),
            final(self).players_map() == old(self).players_map(),
            final(self).games_map().dom() =~= old(self).games_map().dom(),
            forall|g: u128|
                #[trigger] final(self).games_map().contains_key(g)
                    ==> final(self).games_map()[g].common == old(self).games_map()[g].common,
            final(self).secret_key() == old(self).secret_key(),
            final(self).registry_spec() == old(self).registry_spec(),
            due_count(old(self).queue_items(), now) == 0 ==> same_state(*old(self), *final(self))
                && frames@.len() == 0,
            forall|j: int|
                due_count(old(self).queue_items(), now) <= j < old(self).queue_items().len()
                    ==> final(self).queue_items().contains(#[trigger] old(self).queue_items()[j]),
            forall|j: int|
                0 <= j < final(self).queue_items().len() ==> (old(self).queue_items().skip(
                    due_count(old(self).queue_items(), now),
                ).contains(final(self).queue_items()[j]) || exists|k: int|
                    0 <= k < due_count(old(self).queue_items(), now)
                        && #[trigger] old(self).queue_items()[k].1.0
                        == final(self).queue_items()[j].1.0),
            forall|i: int|
                0 <= i < frames@.len() ==> !is_reply(frames@[i])
                    && final(self).game_info_frame_wf(frames@[i]),
    {
        let ghost oldq = old(self).queue_items();
        let due = self.pop_due_entries(now);
        let ghost dc = due_count(oldq, now);
        let ghost mid = *self;
        proof {
            lemma_due_count_bounds(oldq, now);
            if dc == 0 {
                assert(mid.queue_items() =~= oldq);
                assert(same_state(*old(self), mid));
            }
        }
        let mut frames: Vec<OutboundFrame> = Vec::new();
        let mut i: usize = 0;
        while i < due.len()
            invariant
                self.wf(),
                due@.len() == dc,
                dc == due_count(oldq, now),
                forall|k: int| 0 <= k < dc ==> due@[k] == oldq[k].1,
                mid.queue_items() == oldq.skip(dc),
                i <= due@.len(),
                self.clients_map() == mid.clients_map(),
                self.players_map() == mid.players_map(),
                self.games_map().dom() =~= mid.games_map().dom(),
                forall|g: u128|
                    #[trigger] self.games_map().contains_key(g) ==> self.games_map()[g].common
                        == mid.games_map()[g].common,
                self.secret_key() == mid.secret_key(),
                self.registry_spec() == mid.registry_spec(),
                i == 0 ==> *self == mid,
                i == 0 ==> frames@.len() == 0,
                forall|e: (u64, (GameId, EventId))|
                    mid.queue_items().contains(e) ==> self.queue_items().contains(e),
                forall|j: int|
                    0 <= j < self.queue_items().len() ==> (mid.queue_items().contains(
                        self.queue_items()[j],
                    ) || exists|k: int|
                        0 <= k < i && self.queue_items()[j].1.0 == #[trigger] due@[k].0),
                forall|j: int|
                    0 <= j < frames@.len() ==> !is_reply(frames@[j]) && self.game_info_frame_wf(
                        frames@[j],
                    ),
            decreases due@.len() - i,
        {
            let (g, e) = due[i];
            let ghost pre_step = *self;
            let fs = self.process_timer(g, e);
            let ghost fsv = fs@;
            let mut fs = fs;
            let ghost pre = frames@;
            frames.append(&mut fs);
            proof {
                assert forall|j: int|
                    0 <= j < frames@.len() implies !is_reply(frames@[j])
                    && self.game_info_frame_wf(frames@[j]) by {
                    if j < pre.len() {
                        assert(frames@[j] == pre[j]);
                        lemma_frame_wf_transfer(pre_step, *self, pre[j]);
                    } else {
                        assert(frames@[j] == fsv[j - pre.len()]);
                    }
                }
                assert forall|e2: (u64, (GameId, EventId))|
                    mid.queue_items().contains(e2) implies self.queue_items().contains(e2) by {
                    assert(pre_step.queue_items().contains(e2));
                }
                assert forall|j: int|
                    0 <= j < self.queue_items().len() implies (mid.queue_items().contains(
                        self.queue_items()[j],
                    ) || exists|k: int|
                        0 <= k < i + 1 && self.queue_items()[j].1.0 == #[trigger] due@[k].0) by {
                    if pre_step.queue_items().contains(self.queue_items()[j]) {
                        let j2 = choose|j2: int|
                            0 <= j2 < pre_step.queue_items().len() && pre_step.queue_items()[j2]
                                == self.queue_items()[j];
                        if !mid.queue_items().contains(self.queue_items()[j]) {
                            let k = choose|k: int|
                                0 <= k < i && pre_step.queue_items()[j2].1.0 == #[trigger] due@[k].0;
                            assert(self.queue_items()[j].1.0 == due@[k].0);
                        }
                    } else {
                        assert(self.queue_items()[j].1.0 == g);
                        assert(due@[i as int].0 == g);
                    }
                }
            }
            i = i + 1;
        }
        proof {
            assert forall|j: int|
                dc <= j < oldq.len() implies self.queue_items().contains(#[trigger] oldq[j]) by {
                assert(mid.queue_items()[j - dc] == oldq[j]);
                assert(mid.queue_items().contains(oldq[j]));
            }
            assert forall|j: int|
                0 <= j < self.queue_items().len() implies (oldq.skip(dc).contains(
                    self.queue_items()[j],
                ) || exists|k: int|
                    0 <= k < dc && self.queue_items()[j].1.0 == #[trigger] oldq[k].1.0) by {
                if mid.queue_items().contains(self.queue_items()[j]) {
                } else {
                    let k = choose|k: int|
                        0 <= k < due@.len() && self.queue_items()[j].1.0 == #[trigger] due@[k].0;
                    assert(due@[k] == oldq[k].1);
                    assert(self.queue_items()[j].1.0 == oldq[k].1.0);
                }
            }
        }
        frames
    }
}

/// An element-wise copy of a member list.
pub fn copy_player_ids(v: &Vec<PlayerId>) -> (r: Vec<PlayerId>)
    ensures
        r@ == v@,
{
    let mut out: Vec<PlayerId> = Vec::new();
    let mut i: usize = 0;
    while i < v.len()
        invariant
            i <= v@.len(),
            out@ =~= v@.subrange(0, i as int),
        decreases v@.len() - i,
    {
        out.push(v[i]);
        i = i + 1;
    }
    proof {
        assert(out@ =~= v@);
    }
    out
}

/// After `NewIdentity`: the player record is marked identified, nothing else
/// moves, and the reply carries the player id with its freshly signed token.
pub open spec fn new_identity_rel<G: Game>(
    pre: GameServer<G>,
    post: GameServer<G>,
    client: ConnectionId,
    p: u128,
    reply: ReplyMessage,
) -> bool {
    &&& post.players_map() == pre.players_map().insert(
        p,
        Player { conn: client.0, identified: true },
    )
    &&& post.clients_map() == pre.clients_map()
    &&& post.games_map() == pre.games_map()
    &&& post.game_id_list() == pre.game_id_list()
    &&& post.queue_items() == pre.queue_items()
    &&& reply matches ReplyMessage::Identity(id) && id.player_id == PlayerId(p)
        && id.reconnection_secret.tag@ == token_of(pre.secret_key(), PlayerId(p))
}

/// After `Identify`: a bad token changes nothing; a good one rebinds the
/// connection to the claimed player, drops the transient record (and any stale
/// binding the claimed player still had), and leaves every lobby's membership
/// untouched.
pub open spec fn identify_rel<G: Game>(
    pre: GameServer<G>,
    post: GameServer<G>,
    client: ConnectionId,
    p: u128,
    identity: Identity,
    reply: ReplyMessage,
) -> bool {
    if !token_verifies(pre.secret_key(), identity.player_id, identity.reconnection_secret.tag@) {
        &&& same_state(pre, post)
        &&& reply == ReplyMessage::Error(ErrorReply::InvalidReconnectionSecret)
    } else {
        let claimed = identity.player_id.0;
        &&& reply == ReplyMessage::Identity(identity)
        &&& post.clients_map() == if pre.players_map().contains_key(claimed) {
            pre.clients_map().remove(pre.players_map()[claimed].conn).insert(client.0, claimed)
        } else {
            pre.clients_map().insert(client.0, claimed)
        }
        &&& post.players_map() == pre.players_map().remove(p).insert(
            claimed,
            Player { conn: client.0, identified: true },
        )
        &&& post.games_map().dom() =~= pre.games_map().dom()
        &&& forall|g: u128|
            #[trigger] post.games_map().contains_key(g) ==> post.games_map()[g].common
                == pre.games_map()[g].common
        &&& forall|e: (u64, (GameId, EventId))|
            pre.queue_items().contains(e) ==> post.queue_items().contains(e)
        &&& post.game_id_list() == pre.game_id_list()
    }
}

/// After `GameModes`: nothing moves; the reply lists the registered names.
pub open spec fn game_modes_rel<G: Game>(
    pre: GameServer<G>,
    post: GameServer<G>,
    reply: ReplyMessage,
) -> bool {
    &&& same_state(pre, post)
    &&& reply matches ReplyMessage::GameModes(names) && names@.map_values(|s: String| s@)
        == pre.registry_spec().names()
}

/// After `JoinedGames`: nothing moves; the reply lists exactly the lobbies of
/// which the player is a member, each once.
pub open spec fn joined_games_rel<G: Game>(
    pre: GameServer<G>,
    post: GameServer<G>,
    p: u128,
    reply: ReplyMessage,
) -> bool {
    &&& same_state(pre, post)
    &&& reply matches ReplyMessage::JoinedGames(ids) && ids@.no_duplicates() && forall|g: GameId|
        #[trigger] ids@.contains(g) <==> pre.lobby_has_member(g.0, PlayerId(p))
}

/// After `CreateGame`: an unknown type changes nothing; a known one creates a
/// lobby under the fresh id, with the creator as only member and leader.
pub open spec fn create_game_rel<G: Game>(
    pre: GameServer<G>,
    post: GameServer<G>,
    p: u128,
    game_type: Seq<char>,
    fresh: GameId,
    reply: ReplyMessage,
) -> bool {
    if !pre.registry_spec().has_game(game_type) {
        &&& same_state(pre, post)
        &&& reply == ReplyMessage::Error(ErrorReply::InvalidGameFormat)
    } else {
        &&& reply == ReplyMessage::GameCreated(fresh)
        &&& post.games_map().dom() =~= pre.games_map().dom().insert(fresh.0)
        &&& post.games_map()[fresh.0].common.leader == PlayerId(p)
        &&& post.games_map()[fresh.0].common.players@ == seq![PlayerId(p)]
        &&& forall|g: u128|
            #[trigger] post.games_map().contains_key(g) && g != fresh.0 ==> post.games_map()[g]
                == pre.games_map()[g]
        &&& post.clients_map() == pre.clients_map()
        &&& post.players_map() == pre.players_map()
        &&& queue_extended_for(pre.queue_items(), post.queue_items(), fresh)
    }
}

/// After `JoinGame`: a missing lobby changes nothing; otherwise the player is
/// added to the members (becoming leader only of a previously empty lobby).
pub open spec fn join_game_rel<G: Game>(
    pre: GameServer<G>,
    post: GameServer<G>,
    p: u128,
    game_id: GameId,
    reply: ReplyMessage,
) -> bool {
    if !pre.games_map().contains_key(game_id.0) {
        &&& same_state(pre, post)
        &&& reply == ReplyMessage::Error(ErrorReply::NoSuchGameLobby)
    } else {
        &&& reply == ReplyMessage::JoinedToGame(game_id)
        &&& post.games_map().dom() =~= pre.games_map().dom()
        &&& forall|q: PlayerId|
            post.games_map()[game_id.0].common.is_member(q) <==> (
            #[trigger] pre.games_map()[game_id.0].common.is_member(q) || q == PlayerId(p))
        &&& pre.games_map()[game_id.0].common.players@.len() > 0
            ==> post.games_map()[game_id.0].common.leader
            == pre.games_map()[game_id.0].common.leader
        &&& pre.games_map()[game_id.0].common.players@.len() == 0
            ==> post.games_map()[game_id.0].common.leader == PlayerId(p)
        &&& forall|g: u128|
            #[trigger] post.games_map().contains_key(g) && g != game_id.0 ==> post.games_map()[g]
                == pre.games_map()[g]
        &&& post.clients_map() == pre.clients_map()
        &&& post.players_map() == pre.players_map()
        &&& queue_extended_for(pre.queue_items(), post.queue_items(), game_id)
    }
}

/// After `LeaveGame`: a missing lobby changes nothing; otherwise the player is
/// removed, and a departing leader is replaced by the smallest remaining
/// member.
pub open spec fn leave_game_rel<G: Game>(
    pre: GameServer<G>,
    post: GameServer<G>,
    p: u128,
    game_id: GameId,
    reply: ReplyMessage,
) -> bool {
    if !pre.games_map().contains_key(game_id.0) {
        &&& same_state(pre, post)
        &&& reply == ReplyMessage::Error(ErrorReply::NoSuchGameLobby)
    } else {
        &&& reply == ReplyMessage::Success
        &&& post.games_map().dom() =~= pre.games_map().dom()
        &&& removal_rel(
            pre.games_map()[game_id.0].common,
            post.games_map()[game_id.0].common,
            PlayerId(p),
        )
        &&& forall|g: u128|
            #[trigger] post.games_map().contains_key(g) && g != game_id.0 ==> post.games_map()[g]
                == pre.games_map()[g]
        &&& post.clients_map() == pre.clients_map()
        &&& post.players_map() == pre.players_map()
        &&& queue_extended_for(pre.queue_items(), post.queue_items(), game_id)
    }
}

/// One member removed: everyone else stays; when the removed player led a
/// still non-empty lobby, the smallest remaining member takes over.
pub open spec fn removal_rel(pre: GameCommon, post: GameCommon, target: PlayerId) -> bool {
    &&& forall|q: PlayerId|
        #[trigger] post.is_member(q) <==> (pre.is_member(q) && q != target)
    &&& post.players@.len() == pre.players@.len() - (if pre.is_member(target) {
        1int
    } else {
        0
    })
    &&& pre.leader != target ==> post.leader == pre.leader
    &&& pre.leader == target && post.players@.len() > 0 ==> post.leader == post.players@[0]
}

/// After `KickPlayer`: only the leader may kick a member; then the target is
/// removed exactly as by leaving.
pub open spec fn kick_player_rel<G: Game>(
    pre: GameServer<G>,
    post: GameServer<G>,
    p: u128,
    game_id: GameId,
    target: PlayerId,
    reply: ReplyMessage,
) -> bool {
    if !pre.games_map().contains_key(game_id.0) {
        &&& same_state(pre, post)
        &&& reply == ReplyMessage::Error(ErrorReply::NoSuchGameLobby)
    } else if pre.games_map()[game_id.0].common.leader != PlayerId(p)
        || !pre.games_map()[game_id.0].common.is_member(target) {
        &&& same_state(pre, post)
        &&& reply == ReplyMessage::Error(ErrorReply::NotInThatGame)
    } else {
        &&& reply == ReplyMessage::Success
        &&& post.games_map().dom() =~= pre.games_map().dom()
        &&& removal_rel(
            pre.games_map()[game_id.0].common,
            post.games_map()[game_id.0].common,
            target,
        )
        &&& forall|g: u128|
            #[trigger] post.games_map().contains_key(g) && g != game_id.0 ==> post.games_map()[g]
                == pre.games_map()[g]
        &&& post.clients_map() == pre.clients_map()
        &&& post.players_map() == pre.players_map()
        &&& queue_extended_for(pre.queue_items(), post.queue_items(), game_id)
    }
}

/// After `PromoteLeader`: only the leader may promote a member; the membership
/// itself never changes.
pub open spec fn promote_leader_rel<G: Game>(
    pre: GameServer<G>,
    post: GameServer<G>,
    p: u128,
    game_id: GameId,
    target: PlayerId,
    reply: ReplyMessage,
) -> bool {
    if !pre.games_map().contains_key(game_id.0) {
        &&& same_state(pre, post)
        &&& reply == ReplyMessage::Error(ErrorReply::NoSuchGameLobby)
    } else if pre.games_map()[game_id.0].common.leader != PlayerId(p)
        || !pre.games_map()[game_id.0].common.is_member(target) {
        &&& same_state(pre, post)
        &&& reply == ReplyMessage::Error(ErrorReply::NotInThatGame)
    } else {
        &&& reply == ReplyMessage::Success
        &&& post.games_map().dom() =~= pre.games_map().dom()
        &&& post.games_map()[game_id.0].common.leader == target
        &&& post.games_map()[game_id.0].common.players@
            == pre.games_map()[game_id.0].common.players@
        &&& forall|g: u128|
            #[trigger] post.games_map().contains_key(g) && g != game_id.0 ==> post.games_map()[g]
                == pre.games_map()[g]
        &&& post.clients_map() == pre.clients_map()
        &&& post.players_map() == pre.players_map()
        &&& post.queue_items() == pre.queue_items()
    }
}

/// After `Inner`: only a member of an existing lobby reaches the plug-in; the
/// reply wraps the plug-in's own answer, and no lobby's membership changes.
pub open spec fn inner_rel<G: Game>(
    pre: GameServer<G>,
    post: GameServer<G>,
    p: u128,
    game_id: GameId,
    reply: ReplyMessage,
) -> bool {
    if !pre.games_map().contains_key(game_id.0) {
        &&& same_state(pre, post)
        &&& reply == ReplyMessage::Error(ErrorReply::NoSuchGameLobby)
    } else if !pre.games_map()[game_id.0].common.is_member(PlayerId(p)) {
        &&& same_state(pre, post)
        &&& reply == ReplyMessage::Error(ErrorReply::NotInThatGame)
    } else {
        &&& (reply matches ReplyMessage::Inner(_) || reply matches ReplyMessage::Error(
            ErrorReply::Inner(_),
        ))
        &&& post.games_map().dom() =~= pre.games_map().dom()
        &&& forall|g: u128|
            #[trigger] post.games_map().contains_key(g) ==> post.games_map()[g].common
                == pre.games_map()[g].common
        &&& post.clients_map() == pre.clients_map()
        &&& post.players_map() == pre.players_map()
        &&& queue_extended_for(pre.queue_items(), post.queue_items(), game_id)
    }
}

/// The lobby whose full broadcast this request owes, if any: the lobby a
/// successful create, join, leave, kick or promote touches.
pub open spec fn owed_broadcast<G: Game>(
    pre: GameServer<G>,
    p: u128,
    data: ClientMessageData,
    fresh: GameId,
) -> Option<GameId> {
    match data {
        ClientMessageData::CreateGame(game_type) => if pre.registry_spec().has_game(game_type@) {
            Some(fresh)
        } else {
            None
        },
        ClientMessageData::JoinGame(game_id) => if pre.games_map().contains_key(game_id.0) {
            Some(game_id)
        } else {
            None
        },
        ClientMessageData::LeaveGame(game_id) => if pre.games_map().contains_key(game_id.0) {
            Some(game_id)
        } else {
            None
        },
        ClientMessageData::KickPlayer(game_id, target) => if pre.games_map().contains_key(game_id.0)
            && pre.games_map()[game_id.0].common.leader == PlayerId(p)
            && pre.games_map()[game_id.0].common.is_member(target) {
            Some(game_id)
        } else {
            None
        },
        ClientMessageData::PromoteLeader(game_id, target) => if pre.games_map().contains_key(
            game_id.0,
        ) && pre.games_map()[game_id.0].common.leader == PlayerId(p)
            && pre.games_map()[game_id.0].common.is_member(target) {
            Some(game_id)
        } else {
            None
        },
        _ => None,
    }
}

/// Requests that plan no state sends at all: the reply is then the only
/// frame. These are the pure queries and every per-variant error path the
/// runtime itself decides (a plug-in's own outcome is not included).
pub open spec fn plans_nothing<G: Game>(
    pre: GameServer<G>,
    p: u128,
    data: ClientMessageData,
    fresh: GameId,
) -> bool {
    match data {
        ClientMessageData::NewIdentity => true,
        ClientMessageData::GameModes => true,
        ClientMessageData::JoinedGames => false,
        ClientMessageData::Identify(identity) => !token_verifies(
            pre.secret_key(),
            identity.player_id,
            identity.reconnection_secret.tag@,
        ),
        ClientMessageData::CreateGame(game_type) => !pre.registry_spec().has_game(game_type@),
        ClientMessageData::JoinGame(game_id) => !pre.games_map().contains_key(game_id.0),
        ClientMessageData::LeaveGame(game_id) => !pre.games_map().contains_key(game_id.0),
        ClientMessageData::KickPlayer(game_id, target) => !(pre.games_map().contains_key(game_id.0)
            && pre.games_map()[game_id.0].common.leader == PlayerId(p)
            && pre.games_map()[game_id.0].common.is_member(target)),
        ClientMessageData::PromoteLeader(game_id, target) => !(pre.games_map().contains_key(
            game_id.0,
        ) && pre.games_map()[game_id.0].common.leader == PlayerId(p)
            && pre.games_map()[game_id.0].common.is_member(target)),
        ClientMessageData::Inner(game_id, _) => !pre.games_map().contains_key(game_id.0)
            || !pre.games_map()[game_id.0].common.is_member(PlayerId(p)),
    }
}

/// Does this request try to establish an identity?
pub open spec fn is_identify_attempt(data: ClientMessageData) -> bool {
    data matches ClientMessageData::NewIdentity || data matches ClientMessageData::Identify(_)
}

/// The reply to one dispatched request, and the state change it caused: the
/// two identification gates come first, then the per-variant relation.
pub open spec fn reply_rel<G: Game>(
    pre: GameServer<G>,
    post: GameServer<G>,
    client: ConnectionId,
    p: u128,
    data: ClientMessageData,
    fresh: GameId,
    reply: ReplyMessage,
) -> bool {
    let identified = pre.players_map()[p].identified;
    if identified && is_identify_attempt(data) {
        &&& same_state(pre, post)
        &&& reply == ReplyMessage::Error(ErrorReply::AlreadyIdentified)
    } else if !identified && !is_identify_attempt(data) {
        &&& same_state(pre, post)
        &&& reply == ReplyMessage::Error(ErrorReply::MustIdentifyFirst)
    } else {
        match data {
            ClientMessageData::NewIdentity => new_identity_rel(pre, post, client, p, reply),
            ClientMessageData::Identify(identity) => identify_rel(
                pre,
                post,
                client,
                p,
                identity,
                reply,
            ),
            ClientMessageData::GameModes => game_modes_rel(pre, post, reply),
            ClientMessageData::JoinedGames => joined_games_rel(pre, post, p, reply),
            ClientMessageData::CreateGame(game_type) => create_game_rel(
                pre,
                post,
                p,
                game_type@,
                fresh,
                reply,
            ),
            ClientMessageData::JoinGame(game_id) => join_game_rel(pre, post, p, game_id, reply),
            ClientMessageData::LeaveGame(game_id) => leave_game_rel(pre, post, p, game_id, reply),
            ClientMessageData::KickPlayer(game_id, target) => kick_player_rel(
                pre,
                post,
                p,
                game_id,
                target,
                reply,
            ),
            ClientMessageData::PromoteLeader(game_id, target) => promote_leader_rel(
                pre,
                post,
                p,
                game_id,
                target,
                reply,
            ),
            ClientMessageData::Inner(game_id, _) => inner_rel(pre, post, p, game_id, reply),
        }
    }
}

/// Processing one client message: an unknown connection does nothing; for a
/// known one, the first frame is the reply keyed by the request's id on the
/// requester's connection, every later frame is a well-formed `GameInfo`
/// broadcast, and the state changed as the per-variant relation says.
pub open spec fn message_step_rel<G: Game>(
    pre: GameServer<G>,
    post: GameServer<G>,
    client: ConnectionId,
    msg: ClientMessage,
    fresh: GameId,
    frames: Seq<OutboundFrame>,
) -> bool {
    if !pre.clients_map().contains_key(client.0) {
        &&& same_state(pre, post)
        &&& frames.len() == 0
    } else {
        let p = pre.clients_map()[client.0];
        let identified = pre.players_map()[p].identified;
        let gated = (identified && is_identify_attempt(msg.data)) || (!identified
            && !is_identify_attempt(msg.data));
        &&& frames.len() >= 1
        &&& frames[0].conn == client
        &&& is_reply_to(frames[0], msg.id)
        &&& forall|i: int|
            1 <= i < frames.len() ==> !is_reply(frames[i]) && post.game_info_frame_wf(frames[i])
        &&& exists|reply: ReplyMessage|
            frames[0].message == ServerMessage::ReplyTo(msg.id, reply) && #[trigger] reply_rel(
                pre,
                post,
                client,
                p,
                msg.data,
                fresh,
                reply,
            )
        &&& (gated || plans_nothing(pre, p, msg.data, fresh)) ==> frames.len() == 1
        &&& !gated ==> match owed_broadcast(pre, p, msg.data, fresh) {
            Some(g) => forall|q: PlayerId|
                (post.games_map().contains_key(g.0)
                    && #[trigger] post.games_map()[g.0].common.is_member(q)
                    && post.players_map().contains_key(q.0)) ==> exists|i: int|
                    1 <= i < frames.len() && frames[i].conn.0 == post.players_map()[q.0].conn
                        && is_game_info_for(frames[i], g),
            None => true,
        }
        &&& !gated ==> match msg.data {
            ClientMessageData::Identify(identity) => token_verifies(
                pre.secret_key(),
                identity.player_id,
                identity.reconnection_secret.tag@,
            ) ==> forall|g2: u128|
                #[trigger] post.lobby_has_member(g2, identity.player_id) ==> exists|i: int|
                    1 <= i < frames.len() && frames[i].conn == client && is_game_info_for(
                        frames[i],
                        GameId(g2),
                    ),
            _ => true,
        }
    }
}

/// The lobby ids are fresh: adding a brand-new lobby under an unused id, with
/// its id appended to the list, preserves the runtime invariant.
pub proof fn lemma_games_insert<G: Game>(
    pre: GameServer<G>,
    post: GameServer<G>,
    gid: u128,
    lobby: Lobby<G>,
)
    requires
        pre.wf(),
        !pre.games_map().contains_key(gid),
        post.games_map() == pre.games_map().insert(gid, lobby),
        post.game_id_list() == pre.game_id_list().push(gid),
        lobby.common.wf(),
        post.clients_map() == pre.clients_map(),
        post.players_map() == pre.players_map(),
        post.secret_key() == pre.secret_key(),
        post.registry_spec() == pre.registry_spec(),
        forall|j: int|
            0 <= j < post.queue_items().len() ==> (pre.queue_items().contains(
                post.queue_items()[j],
            ) || post.queue_items()[j].1.0.0 == gid),
        forall|i: int, j: int|
            0 <= i < j < post.queue_items().len() ==> post.queue_items()[i].0
                <= post.queue_items()[j].0,
    ensures
        post.wf(),
        post.games_map().dom() =~= pre.games_map().dom().insert(gid),
        post.games_map()[gid] == lobby,
        forall|g: u128|
            #[trigger] post.games_map().contains_key(g) && g != gid ==> post.games_map()[g]
                == pre.games_map()[g],
{
    crate::publish::lemma_push_contains(pre.game_id_list(), gid);
    assert(!pre.game_id_list().contains(gid)) by {
        assert(pre.games_map().contains_key(gid) <==> pre.game_id_list().contains(gid));
    }
    crate::publish::lemma_push_no_duplicates(pre.game_id_list(), gid);
    assert forall|g: u128|
        #[trigger] post.games_map().contains_key(g) <==> post.game_id_list().contains(g) by {
        assert(pre.games_map().contains_key(g) <==> pre.game_id_list().contains(g));
    }
    assert forall|g: u128|
        #[trigger] post.games_map().contains_key(g) implies post.games_map()[g].common.wf() by {
        if g != gid {
            assert(post.games_map()[g] == pre.games_map()[g]);
            assert(pre.games_map().contains_key(g));
        }
    }
    assert forall|k: int|
        0 <= k < post.queue_items().len() implies post.games_map().contains_key(
        post.queue_items()[k].1.0.0,
    ) by {
        if pre.queue_items().contains(post.queue_items()[k]) {
            let j = choose|j: int|
                0 <= j < pre.queue_items().len() && pre.queue_items()[j] == post.queue_items()[k];
            assert(pre.games_map().contains_key(pre.queue_items()[j].1.0.0));
        }
    }
    assert(post.games_map().dom() =~= pre.games_map().dom().insert(gid));
}

impl<G: Game> GameServer<G> {
    /// `NewIdentity`: mark the requesting player identified and hand back its
    /// id with a signed reconnection token.
    pub fn handle_new_identity(&mut self, client: ConnectionId, p: u128) -> (reply: ReplyMessage)
        requires
            old(self).wf(),
            old(self).clients_map().contains_key(client.0),
            old(self).clients_map()[client.0] == p,
        ensures
            final(self).wf(),
            new_identity_rel(*old(self), *final(self), client, p, reply),
            final(self).secret_key() == old(self).secret_key(),
            final(self).registry_spec() == old(self).registry_spec(),
    {
        proof {
            assert(old(self).players_map().contains_key(p));
            assert(old(self).players_map()[p].conn == client.0);
        }
        self.players.insert(p, Player { conn: client.0, identified: true });
        proof {
            assert(self.games_map() == old(self).games_map());
            assert(self.game_id_list() == old(self).game_id_list());
            assert(self.queue_items() == old(self).queue_items());
            assert(self.clients_map() == old(self).clients_map());
            assert(self.secret_key() == old(self).secret_key());
            assert(self.registry_spec() == old(self).registry_spec());
            assert forall|c: u128| #[trigger] self.clients_map().contains_key(c) implies {
                &&& self.players_map().contains_key(self.clients_map()[c])
                &&& self.players_map()[self.clients_map()[c]].conn == c
            } by {
                assert(old(self).clients_map().contains_key(c));
                if old(self).clients_map()[c] == p {
                    assert(old(self).players_map()[p].conn == c);
                    assert(c == client.0);
                }
            }
            assert forall|q: u128| #[trigger] self.players_map().contains_key(q) implies {
                &&& self.clients_map().contains_key(self.players_map()[q].conn)
                &&& self.clients_map()[self.players_map()[q].conn] == q
            } by {
                if q != p {
                    assert(old(self).players_map().contains_key(q));
                }
            }
        }
        let token = crate::protocol::ReconnectionSecret::for_player(&self.secret, PlayerId(p));
        ReplyMessage::Identity(Identity { player_id: PlayerId(p), reconnection_secret: token })
    }

    /// `Identify`: verify the claimed identity; on success rebind this
    /// connection to the claimed player, notify that player's lobbies, and
    /// plan a state send of each to the reconnected player.
    pub fn handle_identify(
        &mut self,
        client: ConnectionId,
        p: u128,
        identity: Identity,
        publish: &mut PublishGameState,
    ) -> (reply: ReplyMessage)
        requires
            old(self).wf(),
            old(publish).wf(),
            old(self).clients_map().contains_key(client.0),
            old(self).clients_map()[client.0] == p,
        ensures
            final(self).wf(),
            final(publish).wf(),
            identify_rel(*old(self), *final(self), client, p, identity, reply),
            !token_verifies(
                old(self).secret_key(),
                identity.player_id,
                identity.reconnection_secret.tag@,
            ) ==> *final(publish) == *old(publish),
            final(self).secret_key() == old(self).secret_key(),
            final(self).registry_spec() == old(self).registry_spec(),
            token_verifies(
                old(self).secret_key(),
                identity.player_id,
                identity.reconnection_secret.tag@,
            ) ==> forall|g: u128|
                #[trigger] final(self).lobby_has_member(g, identity.player_id)
                    ==> final(publish).planned_for(g, identity.player_id.0),
    {
        if !identity.verify(&self.secret) {
            return ReplyMessage::Error(ErrorReply::InvalidReconnectionSecret);
        }
        let claimed: u128 = identity.player_id.0;
        match self.players.get(&claimed) {
            Some(rec) => {
                let oldconn = rec.conn;
                self.clients.remove(&oldconn);
            },
            None => {},
        }
        self.clients.insert(client.0, claimed);
        self.players.remove(&p);
        self.players.insert(claimed, Player { conn: client.0, identified: true });
        proof {
            let pre = *old(self);
            assert(self.games_map() == pre.games_map());
            assert(self.game_id_list() == pre.game_id_list());
            assert(self.queue_items() == pre.queue_items());
            assert(self.secret_key() == pre.secret_key());
            assert(self.registry_spec() == pre.registry_spec());
            assert(identity.player_id == PlayerId(claimed));
            assert forall|c: u128| #[trigger] self.clients_map().contains_key(c) implies {
                &&& self.players_map().contains_key(self.clients_map()[c])
                &&& self.players_map()[self.clients_map()[c]].conn == c
            } by {
                if c == client.0 {
                    assert(self.clients_map()[c] == claimed);
                    assert(self.players_map().contains_key(claimed));
                    assert(self.players_map()[claimed].conn == client.0);
                } else {
                    assert(pre.clients_map().contains_key(c));
                    let q = pre.clients_map()[c];
                    assert(pre.players_map().contains_key(q));
                    assert(pre.players_map()[q].conn == c);
                    if q == p {
                        assert(pre.players_map()[p].conn == client.0);
                        assert(false);
                    }
                    if q == claimed {
                        assert(c == pre.players_map()[claimed].conn);
                        assert(!self.clients_map().contains_key(c));
                        assert(false);
                    }
                    assert(self.players_map().contains_key(q));
                    assert(self.players_map()[q].conn == c);
                    assert(self.clients_map()[c] == q);
                }
            }
            assert forall|q: u128| #[trigger] self.players_map().contains_key(q) implies {
                &&& self.clients_map().contains_key(self.players_map()[q].conn)
                &&& self.clients_map()[self.players_map()[q].conn] == q
            } by {
                if q == claimed {
                    assert(self.players_map()[q].conn == client.0);
                    assert(self.clients_map().contains_key(client.0));
                    assert(self.clients_map()[client.0] == claimed);
                } else {
                    assert(pre.players_map().contains_key(q));
                    assert(q != p);
                    let c = pre.players_map()[q].conn;
                    assert(pre.clients_map().contains_key(c));
                    assert(pre.clients_map()[c] == q);
                    if c == client.0 {
                        assert(pre.clients_map()[client.0] == p);
                        assert(false);
                    }
                    if pre.players_map().contains_key(claimed) {
                        if c == pre.players_map()[claimed].conn {
                            assert(pre.clients_map()[c] == claimed);
                            assert(false);
                        }
                    }
                    assert(self.clients_map().contains_key(c));
                    assert(self.clients_map()[c] == q);
                }
            }
        }
        let member_of = self.games_with_member(identity.player_id);
        let ghost mid = *self;
        let mut a: usize = 0;
        while a < member_of.len()
            invariant
                self.wf(),
                publish.wf(),
                a <= member_of@.len(),
                forall|j: int|
                    0 <= j < member_of@.len() ==> mid.games_map().contains_key(member_of@[j]),
                forall|j: int|
                    0 <= j < member_of@.len() ==> mid.games_map()[member_of@[j]].common.is_member(
                        identity.player_id,
                    ),
                forall|g: u128|
                    #[trigger] mid.games_map().contains_key(g)
                        && mid.games_map()[g].common.is_member(identity.player_id)
                        ==> member_of@.contains(g),
                self.clients_map() == mid.clients_map(),
                self.players_map() == mid.players_map(),
                self.games_map().dom() =~= mid.games_map().dom(),
                forall|g: u128|
                    #[trigger] self.games_map().contains_key(g) ==> self.games_map()[g].common
                        == mid.games_map()[g].common,
                self.secret_key() == mid.secret_key(),
                self.registry_spec() == mid.registry_spec(),
                self.game_id_list() == mid.game_id_list(),
                forall|e: (u64, (GameId, EventId))|
                    mid.queue_items().contains(e) ==> self.queue_items().contains(e),
                forall|k: int|
                    0 <= k < a ==> publish.planned_for(member_of@[k], identity.player_id.0),
            decreases member_of@.len() - a,
        {
            let gid = member_of[a];
            let ghost pre_step = *self;
            let ghost pre_pub = *publish;
            match self.games.remove(&gid) {
                Some(mut lobby) => {
                    let updates = lobby.on_reconnect(identity.player_id);
                    let ghost lobby_v = lobby;
                    self.games.insert(gid, lobby);
                    proof {
                        assert(self.queue_items() == pre_step.queue_items());
                        assert(self.queue.wf());
                    }
                    updates.apply(GameId(gid), publish, &mut self.queue);
                    publish.add(GameId(gid), identity.player_id);
                    proof {
                        assert(self.games_map() == pre_step.games_map().remove(gid).insert(
                            gid,
                            lobby_v,
                        ));
                        assert forall|j: int|
                            0 <= j < self.queue_items().len() implies (
                        pre_step.queue_items().contains(self.queue_items()[j])
                            || self.queue_items()[j].1.0.0 == gid) by {
                            assert(pre_step.queue_items().contains(self.queue_items()[j])
                                || self.queue_items()[j].1.0 == GameId(gid));
                        }
                        lemma_games_update(pre_step, *self, gid, lobby_v);
                        assert forall|g: u128|
                            #[trigger] self.games_map().contains_key(g) implies self.games_map()[g].common
                            == mid.games_map()[g].common by {
                            if g != gid {
                                assert(self.games_map()[g] == pre_step.games_map()[g]);
                            } else {
                                assert(self.games_map()[gid] == lobby_v);
                                assert(lobby_v.common == pre_step.games_map()[gid].common);
                            }
                        }
                        assert(publish.planned_for(gid, identity.player_id.0));
                        assert forall|k: int|
                            0 <= k < a + 1 implies publish.planned_for(
                            member_of@[k],
                            identity.player_id.0,
                        ) by {
                            if k < a {
                                let gk = member_of@[k];
                                assert(pre_pub.planned_for(gk, identity.player_id.0));
                            }
                        }
                    }
                },
                None => {
                    proof {
                        assert(false);
                    }
                },
            }
            a = a + 1;
        }
        proof {
            assert forall|g: u128|
                #[trigger] self.lobby_has_member(g, identity.player_id) implies publish.planned_for(
                g,
                identity.player_id.0,
            ) by {
                assert(mid.games_map().contains_key(g));
                assert(mid.games_map()[g].common == self.games_map()[g].common);
                assert(member_of@.contains(g));
                let k = choose|k: int| 0 <= k < member_of@.len() && member_of@[k] == g;
            }
        }
        ReplyMessage::Identity(identity)
    }

    /// `GameModes`: list the registered game-type names.
    pub fn handle_game_modes(&self) -> (reply: ReplyMessage)
        ensures
            game_modes_rel(*self, *self, reply),
    {
        ReplyMessage::GameModes(self.registry.game_names())
    }

    /// `JoinedGames`: list the lobbies this player is a member of, and plan a
    /// targeted state send of each to the player, refreshing its view.
    pub fn handle_joined_games(&self, p: u128, publish: &mut PublishGameState) -> (reply:
        ReplyMessage)
        requires
            self.wf(),
            old(publish).wf(),
        ensures
            final(publish).wf(),
            joined_games_rel(*self, *self, p, reply),
            forall|g: u128|
                #[trigger] self.lobby_has_member(g, PlayerId(p))
                    ==> final(publish).planned_for(g, p),
    {
        let member_of = self.games_with_member(PlayerId(p));
        let mut ids: Vec<GameId> = Vec::new();
        let mut i: usize = 0;
        while i < member_of.len()
            invariant
                self.wf(),
                publish.wf(),
                i <= member_of@.len(),
                ids@.len() == i,
                forall|j: int| 0 <= j < i ==> ids@[j] == GameId(member_of@[j]),
                forall|j: int|
                    0 <= j < member_of@.len() ==> self.games_map().contains_key(member_of@[j])
                        && self.games_map()[member_of@[j]].common.is_member(PlayerId(p)),
                forall|k: int| 0 <= k < i ==> publish.planned_for(member_of@[k], p),
            decreases member_of@.len() - i,
        {
            let gid = member_of[i];
            let ghost pre_pub = *publish;
            publish.add(GameId(gid), PlayerId(p));
            ids.push(GameId(gid));
            proof {
                assert(publish.planned_for(gid, p));
                assert forall|k: int| 0 <= k < i + 1 implies publish.planned_for(
                    member_of@[k],
                    p,
                ) by {
                    if k < i {
                        assert(pre_pub.planned_for(member_of@[k], p));
                    }
                }
            }
            i = i + 1;
        }
        proof {
            assert forall|g: u128|
                #[trigger] self.lobby_has_member(g, PlayerId(p)) implies publish.planned_for(
                g,
                p,
            ) by {
                assert(member_of@.contains(g));
                let k = choose|k: int| 0 <= k < member_of@.len() && member_of@[k] == g;
            }
            assert(ids@.no_duplicates()) by {
                assert forall|a: int, b: int| 0 <= a < b < ids@.len() implies ids@[a] != ids@[b]
                by {
                    assert(member_of@[a] != member_of@[b]);
                    assert(ids@[a].0 == member_of@[a] && ids@[b].0 == member_of@[b]);
                }
            }
            assert forall|g: GameId|
                #[trigger] ids@.contains(g) <==> self.lobby_has_member(g.0, PlayerId(p)) by {
                if ids@.contains(g) {
                    let j = choose|j: int| 0 <= j < ids@.len() && ids@[j] == g;
                    assert(g.0 == member_of@[j]);
                }
                if self.lobby_has_member(g.0, PlayerId(p)) {
                    assert(member_of@.contains(g.0));
                    let k = choose|k: int| 0 <= k < member_of@.len() && member_of@[k] == g.0;
                    assert(ids@[k] == GameId(g.0));
                    assert(g == GameId(g.0));
                }
            }
        }
        ReplyMessage::JoinedGames(ids)
    }

    /// `CreateGame`: build a fresh lobby of the named type under the given
    /// fresh id, with the creator as leader and only member; unknown type
    /// names are rejected.
    pub fn handle_create_game(
        &mut self,
        p: u128,
        game_type: &String,
        fresh: GameId,
        publish: &mut PublishGameState,
    ) -> (reply: ReplyMessage)
        requires
            old(self).wf(),
            old(publish).wf(),
            !old(self).games_map().contains_key(fresh.0),
        ensures
            final(self).wf(),
            final(publish).wf(),
            create_game_rel(*old(self), *final(self), p, game_type@, fresh, reply),
            old(self).registry_spec().has_game(game_type@) ==> final(publish).plan()
                == old(publish).plan().insert(fresh.0, None::<Vec<u128>>),
            !old(self).registry_spec().has_game(game_type@) ==> *final(publish) == *old(publish),
            final(self).secret_key() == old(self).secret_key(),
            final(self).registry_spec() == old(self).registry_spec(),
    {
        match self.registry.build(game_type.as_str()) {
            None => ReplyMessage::Error(ErrorReply::InvalidGameFormat),
            Some(state) => {
                let common = GameCommon::new(PlayerId(p));
                let mut lobby = Lobby { common, state };
                let updates = lobby.on_join(PlayerId(p));
                let ghost lobby_v = lobby;
                self.games.insert(fresh.0, lobby);
                self.game_ids.push(fresh.0);
                proof {
                    assert(self.queue_items() == old(self).queue_items());
                    assert(self.queue.wf());
                }
                updates.apply(fresh, publish, &mut self.queue);
                publish.add_all(fresh);
                proof {
                    assert(self.games_map() == old(self).games_map().insert(fresh.0, lobby_v));
                    assert(self.game_id_list() == old(self).game_id_list().push(fresh.0));
                    assert forall|j: int|
                        0 <= j < self.queue_items().len() implies (old(
                    self,
                    ).queue_items().contains(self.queue_items()[j]) || self.queue_items()[j].1.0.0
                        == fresh.0) by {
                        assert(old(self).queue_items().contains(self.queue_items()[j])
                            || self.queue_items()[j].1.0 == fresh);
                    }
                    assert(lobby_v.common.wf());
                    lemma_games_insert(*old(self), *self, fresh.0, lobby_v);
                    assert(self.games_map()[fresh.0].common.players@ == seq![PlayerId(p)]);
                    assert(publish.plan() =~= old(publish).plan().insert(
                        fresh.0,
                        None::<Vec<u128>>,
                    ));
                }
                ReplyMessage::GameCreated(fresh)
            },
        }
    }

    /// `JoinGame`: add the player to an existing lobby's members, tell the
    /// plug-in, and plan a broadcast.
    pub fn handle_join_game(&mut self, p: u128, game_id: GameId, publish: &mut PublishGameState)
        -> (reply: ReplyMessage)
        requires
            old(self).wf(),
            old(publish).wf(),
        ensures
            final(self).wf(),
            final(publish).wf(),
            join_game_rel(*old(self), *final(self), p, game_id, reply),
            old(self).games_map().contains_key(game_id.0) ==> final(publish).plan()
                == old(publish).plan().insert(game_id.0, None::<Vec<u128>>),
            !old(self).games_map().contains_key(game_id.0) ==> *final(publish) == *old(publish),
            final(self).secret_key() == old(self).secret_key(),
            final(self).registry_spec() == old(self).registry_spec(),
    {
        if !self.games.contains_key(&game_id.0) {
            return ReplyMessage::Error(ErrorReply::NoSuchGameLobby);
        }
        match self.games.remove(&game_id.0) {
            Some(mut lobby) => {
                let ghost old_common = lobby.common;
                proof {
                    assert(old(self).games_map().contains_key(game_id.0));
                    assert(lobby == old(self).games_map()[game_id.0]);
                    assert(old(self).games_map()[game_id.0].common.wf());
                }
                let _added = lobby.common.insert_member(PlayerId(p));
                let updates = lobby.on_join(PlayerId(p));
                let ghost lobby_v = lobby;
                self.games.insert(game_id.0, lobby);
                proof {
                    assert(self.queue_items() == old(self).queue_items());
                    assert(self.queue.wf());
                }
                updates.apply(game_id, publish, &mut self.queue);
                publish.add_all(game_id);
                proof {
                    assert(self.games_map() == old(self).games_map().remove(game_id.0).insert(
                        game_id.0,
                        lobby_v,
                    ));
                    assert forall|j: int|
                        0 <= j < self.queue_items().len() implies (old(
                    self,
                    ).queue_items().contains(self.queue_items()[j]) || self.queue_items()[j].1.0.0
                        == game_id.0) by {
                        assert(old(self).queue_items().contains(self.queue_items()[j])
                            || self.queue_items()[j].1.0 == game_id);
                    }
                    lemma_games_update(*old(self), *self, game_id.0, lobby_v);
                    assert(old_common == old(self).games_map()[game_id.0].common);
                    assert(self.games_map()[game_id.0] == lobby_v);
                    assert(publish.plan() =~= old(publish).plan().insert(
                        game_id.0,
                        None::<Vec<u128>>,
                    ));
                }
                ReplyMessage::JoinedToGame(game_id)
            },
            None => {
                proof {
                    assert(false);
                }
                ReplyMessage::Error(ErrorReply::NoSuchGameLobby)
            },
        }
    }

    /// `LeaveGame`: remove the player from an existing lobby (reassigning the
    /// leadership by the smallest-id rule if the leader left), tell the
    /// plug-in, and plan a broadcast.
    pub fn handle_leave_game(&mut self, p: u128, game_id: GameId, publish: &mut PublishGameState)
        -> (reply: ReplyMessage)
        requires
            old(self).wf(),
            old(publish).wf(),
        ensures
            final(self).wf(),
            final(publish).wf(),
            leave_game_rel(*old(self), *final(self), p, game_id, reply),
            old(self).games_map().contains_key(game_id.0) ==> final(publish).plan()
                == old(publish).plan().insert(game_id.0, None::<Vec<u128>>),
            !old(self).games_map().contains_key(game_id.0) ==> *final(publish) == *old(publish),
            final(self).secret_key() == old(self).secret_key(),
            final(self).registry_spec() == old(self).registry_spec(),
    {
        if !self.games.contains_key(&game_id.0) {
            return ReplyMessage::Error(ErrorReply::NoSuchGameLobby);
        }
        match self.games.remove(&game_id.0) {
            Some(mut lobby) => {
                let target = PlayerId(p);
                proof {
                    assert(old(self).games_map().contains_key(game_id.0));
                    assert(lobby == old(self).games_map()[game_id.0]);
                    assert(old(self).games_map()[game_id.0].common.wf());
                }
                let _removed = lobby.try_remove_player(&target);
                let updates = lobby.on_leave(PlayerId(p));
                let ghost lobby_v = lobby;
                self.games.insert(game_id.0, lobby);
                proof {
                    assert(self.queue_items() == old(self).queue_items());
                    assert(self.queue.wf());
                }
                updates.apply(game_id, publish, &mut self.queue);
                publish.add_all(game_id);
                proof {
                    assert(self.games_map() == old(self).games_map().remove(game_id.0).insert(
                        game_id.0,
                        lobby_v,
                    ));
                    assert forall|j: int|
                        0 <= j < self.queue_items().len() implies (old(
                    self,
                    ).queue_items().contains(self.queue_items()[j]) || self.queue_items()[j].1.0.0
                        == game_id.0) by {
                        assert(old(self).queue_items().contains(self.queue_items()[j])
                            || self.queue_items()[j].1.0 == game_id);
                    }
                    lemma_games_update(*old(self), *self, game_id.0, lobby_v);
                    assert(self.games_map()[game_id.0] == lobby_v);
                    assert(publish.plan() =~= old(publish).plan().insert(
                        game_id.0,
                        None::<Vec<u128>>,
                    ));
                }
                ReplyMessage::Success
            },
            None => {
                proof {
                    assert(false);
                }
                ReplyMessage::Error(ErrorReply::NoSuchGameLobby)
            },
        }
    }

    /// `KickPlayer`: only the lobby's leader may kick, and only a member;
    /// then the target is removed exactly as by leaving, the plug-in is told,
    /// and a broadcast is planned.
    pub fn handle_kick_player(
        &mut self,
        p: u128,
        game_id: GameId,
        target: PlayerId,
        publish: &mut PublishGameState,
    ) -> (reply: ReplyMessage)
        requires
            old(self).wf(),
            old(publish).wf(),
        ensures
            final(self).wf(),
            final(publish).wf(),
            kick_player_rel(*old(self), *final(self), p, game_id, target, reply),
            (old(self).games_map().contains_key(game_id.0)
                && old(self).games_map()[game_id.0].common.leader == PlayerId(p)
                && old(self).games_map()[game_id.0].common.is_member(target))
                ==> final(publish).plan() == old(publish).plan().insert(
                game_id.0,
                None::<Vec<u128>>,
            ),
            !(old(self).games_map().contains_key(game_id.0)
                && old(self).games_map()[game_id.0].common.leader == PlayerId(p)
                && old(self).games_map()[game_id.0].common.is_member(target)) ==> *final(publish)
                == *old(publish),
            final(self).secret_key() == old(self).secret_key(),
            final(self).registry_spec() == old(self).registry_spec(),
    {
        match self.games.get(&game_id.0) {
            None => {
                return ReplyMessage::Error(ErrorReply::NoSuchGameLobby);
            },
            Some(lobby) => {
                if lobby.common.leader.0 != p {
                    proof {
                        assert(lobby.common.leader != PlayerId(p));
                    }
                    return ReplyMessage::Error(ErrorReply::NotInThatGame);
                }
                if !lobby.common.contains_player(&target) {
                    return ReplyMessage::Error(ErrorReply::NotInThatGame);
                }
                proof {
                    assert(lobby.common.leader == PlayerId(lobby.common.leader.0));
                }
            },
        }
        match self.games.remove(&game_id.0) {
            Some(mut lobby) => {
                proof {
                    assert(old(self).games_map().contains_key(game_id.0));
                    assert(lobby == old(self).games_map()[game_id.0]);
                    assert(old(self).games_map()[game_id.0].common.wf());
                }
                let _removed = lobby.try_remove_player(&target);
                let updates = lobby.on_kick(target);
                let ghost lobby_v = lobby;
                self.games.insert(game_id.0, lobby);
                proof {
                    assert(self.queue_items() == old(self).queue_items());
                    assert(self.queue.wf());
                }
                updates.apply(game_id, publish, &mut self.queue);
                publish.add_all(game_id);
                proof {
                    assert(self.games_map() == old(self).games_map().remove(game_id.0).insert(
                        game_id.0,
                        lobby_v,
                    ));
                    assert forall|j: int|
                        0 <= j < self.queue_items().len() implies (old(
                    self,
                    ).queue_items().contains(self.queue_items()[j]) || self.queue_items()[j].1.0.0
                        == game_id.0) by {
                        assert(old(self).queue_items().contains(self.queue_items()[j])
                            || self.queue_items()[j].1.0 == game_id);
                    }
                    lemma_games_update(*old(self), *self, game_id.0, lobby_v);
                    assert(self.games_map()[game_id.0] == lobby_v);
                    assert(publish.plan() =~= old(publish).plan().insert(
                        game_id.0,
                        None::<Vec<u128>>,
                    ));
                }
                ReplyMessage::Success
            },
            None => {
                proof {
                    assert(false);
                }
                ReplyMessage::Error(ErrorReply::NoSuchGameLobby)
            },
        }
    }

    /// `PromoteLeader`: only the lobby's leader may promote, and only a
    /// member; the membership itself never changes.
    pub fn handle_promote_leader(
        &mut self,
        p: u128,
        game_id: GameId,
        target: PlayerId,
        publish: &mut PublishGameState,
    ) -> (reply: ReplyMessage)
        requires
            old(self).wf(),
            old(publish).wf(),
        ensures
            final(self).wf(),
            final(publish).wf(),
            promote_leader_rel(*old(self), *final(self), p, game_id, target, reply),
            (old(self).games_map().contains_key(game_id.0)
                && old(self).games_map()[game_id.0].common.leader == PlayerId(p)
                && old(self).games_map()[game_id.0].common.is_member(target))
                ==> final(publish).plan() == old(publish).plan().insert(
                game_id.0,
                None::<Vec<u128>>,
            ),
            !(old(self).games_map().contains_key(game_id.0)
                && old(self).games_map()[game_id.0].common.leader == PlayerId(p)
                && old(self).games_map()[game_id.0].common.is_member(target)) ==> *final(publish)
                == *old(publish),
            final(self).secret_key() == old(self).secret_key(),
            final(self).registry_spec() == old(self).registry_spec(),
    {
        match self.games.get(&game_id.0) {
            None => {
                return ReplyMessage::Error(ErrorReply::NoSuchGameLobby);
            },
            Some(lobby) => {
                if lobby.common.leader.0 != p {
                    proof {
                        assert(lobby.common.leader != PlayerId(p));
                    }
                    return ReplyMessage::Error(ErrorReply::NotInThatGame);
                }
                if !lobby.common.contains_player(&target) {
                    return ReplyMessage::Error(ErrorReply::NotInThatGame);
                }
            },
        }
        match self.games.remove(&game_id.0) {
            Some(mut lobby) => {
                lobby.common.leader = target;
                let ghost lobby_v = lobby;
                self.games.insert(game_id.0, lobby);
                publish.add_all(game_id);
                proof {
                    assert(self.games_map() == old(self).games_map().remove(game_id.0).insert(
                        game_id.0,
                        lobby_v,
                    ));
                    assert(lobby_v.common.wf()) by {
                        assert(lobby_v.common.players@
                            == old(self).games_map()[game_id.0].common.players@);
                        assert(old(self).games_map()[game_id.0].common.is_member(target));
                    }
                    assert(self.queue_items() == old(self).queue_items());
                    lemma_games_update(*old(self), *self, game_id.0, lobby_v);
                    assert(self.games_map()[game_id.0] == lobby_v);
                }
                ReplyMessage::Success
            },
            None => {
                proof {
                    assert(false);
                }
                ReplyMessage::Error(ErrorReply::NoSuchGameLobby)
            },
        }
    }

    /// `Inner`: hand a game-specific message to the lobby's plug-in on behalf
    /// of a member; enact the returned updates and wrap the returned reply.
    /// The second result is the plug-in's change flag: the plan grows by this
    /// lobby's broadcast exactly when it is set, and error paths leave the
    /// plan untouched.
    pub fn handle_inner(
        &mut self,
        p: u128,
        game_id: GameId,
        value: serde_json::Value,
        publish: &mut PublishGameState,
    ) -> (r: (ReplyMessage, bool))
        requires
            old(self).wf(),
            old(publish).wf(),
        ensures
            final(self).wf(),
            final(publish).wf(),
            inner_rel(*old(self), *final(self), p, game_id, r.0),
            final(self).secret_key() == old(self).secret_key(),
            final(self).registry_spec() == old(self).registry_spec(),
            r.1 ==> final(publish).plan() == old(publish).plan().insert(
                game_id.0,
                None::<Vec<u128>>,
            ),
            !r.1 ==> *final(publish) == *old(publish),
            (!old(self).games_map().contains_key(game_id.0) || !old(
                self,
            ).games_map()[game_id.0].common.is_member(PlayerId(p))) ==> !r.1,
    {
        match self.games.get(&game_id.0) {
            None => {
                return (ReplyMessage::Error(ErrorReply::NoSuchGameLobby), false);
            },
            Some(lobby) => {
                if !lobby.common.contains_player(&PlayerId(p)) {
                    return (ReplyMessage::Error(ErrorReply::NotInThatGame), false);
                }
            },
        }
        match self.games.remove(&game_id.0) {
            Some(mut lobby) => {
                let (updates, result) = lobby.on_message_from(PlayerId(p), value);
                let changed = updates.state_changed;
                let ghost lobby_v = lobby;
                self.games.insert(game_id.0, lobby);
                proof {
                    assert(self.queue_items() == old(self).queue_items());
                    assert(self.queue.wf());
                }
                updates.apply(game_id, publish, &mut self.queue);
                proof {
                    assert(self.games_map() == old(self).games_map().remove(game_id.0).insert(
                        game_id.0,
                        lobby_v,
                    ));
                    assert forall|j: int|
                        0 <= j < self.queue_items().len() implies (old(
                    self,
                    ).queue_items().contains(self.queue_items()[j]) || self.queue_items()[j].1.0.0
                        == game_id.0) by {
                        assert(old(self).queue_items().contains(self.queue_items()[j])
                            || self.queue_items()[j].1.0 == game_id);
                    }
                    lemma_games_update(*old(self), *self, game_id.0, lobby_v);
                    assert forall|g: u128|
                        #[trigger] self.games_map().contains_key(g) implies self.games_map()[g].common
                        == old(self).games_map()[g].common by {
                        if g != game_id.0 {
                            assert(self.games_map()[g] == old(self).games_map()[g]);
                        } else {
                            assert(self.games_map()[game_id.0] == lobby_v);
                            assert(lobby_v.common == old(self).games_map()[game_id.0].common);
                        }
                    }
                }
                match result {
                    Ok(v) => (ReplyMessage::Inner(v), changed),
                    Err(e) => (ReplyMessage::Error(ErrorReply::Inner(e)), changed),
                }
            },
            None => {
                proof {
                    assert(false);
                }
                (ReplyMessage::Error(ErrorReply::NoSuchGameLobby), false)
            },
        }
    }

    /// Process one client message: apply the identification gates, dispatch by
    /// variant, and return the reply frame followed by the planned `GameInfo`
    /// frames. Messages from unknown connections are ignored.
    pub fn process_client_message(
        &mut self,
        client: ConnectionId,
        msg: ClientMessage,
        fresh_game_id: GameId,
    ) -> (frames: Vec<OutboundFrame>)
        requires
            old(self).wf(),
            !old(self).games_map().contains_key(fresh_game_id.0),
        ensures
            final(self).wf(),
            final(self).secret_key() == old(self).secret_key(),
            final(self).registry_spec() == old(self).registry_spec(),
            message_step_rel(*old(self), *final(self), client, msg, fresh_game_id, frames@),
    {
        let p: u128 = match self.clients.get(&client.0) {
            None => {
                return Vec::new();
            },
            Some(p) => *p,
        };
        let identified: bool = match self.players.get(&p) {
            Some(rec) => rec.identified,
            None => {
                proof {
                    assert(self.clients_map().contains_key(client.0));
                    assert(p == self.clients_map()[client.0]);
                    assert(self.players_map().contains_key(p));
                    assert(false);
                }
                false
            },
        };
        let attempts: bool = match &msg.data {
            ClientMessageData::NewIdentity => true,
            ClientMessageData::Identify(_) => true,
            _ => false,
        };
        let mut publish = PublishGameState::new();
        let ghost data_ghost = msg.data;
        let ClientMessage { id: msg_id, data } = msg;
        let reply: ReplyMessage = if identified && attempts {
            ReplyMessage::Error(ErrorReply::AlreadyIdentified)
        } else if !identified && !attempts {
            ReplyMessage::Error(ErrorReply::MustIdentifyFirst)
        } else {
            match data {
                ClientMessageData::NewIdentity => self.handle_new_identity(client, p),
                ClientMessageData::Identify(identity) => self.handle_identify(
                    client,
                    p,
                    identity,
                    &mut publish,
                ),
                ClientMessageData::GameModes => self.handle_game_modes(),
                ClientMessageData::JoinedGames => self.handle_joined_games(p, &mut publish),
                ClientMessageData::CreateGame(game_type) => self.handle_create_game(
                    p,
                    &game_type,
                    fresh_game_id,
                    &mut publish,
                ),
                ClientMessageData::JoinGame(game_id) => self.handle_join_game(
                    p,
                    game_id,
                    &mut publish,
                ),
                ClientMessageData::LeaveGame(game_id) => self.handle_leave_game(
                    p,
                    game_id,
                    &mut publish,
                ),
                ClientMessageData::KickPlayer(game_id, target) => self.handle_kick_player(
                    p,
                    game_id,
                    target,
                    &mut publish,
                ),
                ClientMessageData::PromoteLeader(game_id, target) => self.handle_promote_leader(
                    p,
                    game_id,
                    target,
                    &mut publish,
                ),
                ClientMessageData::Inner(game_id, value) => self.handle_inner(
                    p,
                    game_id,
                    value,
                    &mut publish,
                ).0,
            }
        };
        let ghost rep = reply;
        proof {
            assert(reply_rel(*old(self), *self, client, p, msg.data, fresh_game_id, rep));
        }
        let mut frames: Vec<OutboundFrame> = Vec::new();
        frames.push(OutboundFrame { conn: client, message: reply.finalize(msg_id) });
        let ghost first = frames@;
        let ghost pub_snapshot = publish;
        let mut pub_frames = self.run_publish(publish);
        let ghost pubv = pub_frames@;
        frames.append(&mut pub_frames);
        proof {
            assert(frames@[0] == first[0]);
            assert(frames@[0].message == ServerMessage::ReplyTo(msg.id, rep));
            assert forall|i: int|
                1 <= i < frames@.len() implies !is_reply(frames@[i])
                && self.game_info_frame_wf(frames@[i]) by {
                assert(frames@[i] == pubv[i - 1]);
            }
            if ((identified && attempts) || (!identified && !attempts)) || plans_nothing(
                *old(self),
                p,
                data_ghost,
                fresh_game_id,
            ) {
                assert(pub_snapshot.plan() =~= Map::<u128, Option<Vec<u128>>>::empty());
                assert(pubv.len() == 0) by {
                    if pubv.len() > 0 {
                        let f = pubv[0];
                        assert(self.game_info_frame_wf(f));
                        match f.message {
                            ServerMessage::ServerSent(
                                ServerSentMessage::GameInfo {
                                    id,
                                    leader: _,
                                    players: _,
                                    public_state: _,
                                    private_state: _,
                                },
                            ) => {
                                assert(is_game_info_for(f, id));
                                assert(pub_snapshot.plan().contains_key(id.0));
                                assert(false);
                            },
                            _ => {
                                assert(false);
                            },
                        }
                    }
                }
                assert(frames@.len() == 1);
            }
            if !((identified && attempts) || (!identified && !attempts)) {
                match owed_broadcast(*old(self), p, data_ghost, fresh_game_id) {
                    Some(g_owed) => {
                        assert forall|q: PlayerId|
                            (self.games_map().contains_key(g_owed.0)
                                && #[trigger] self.games_map()[g_owed.0].common.is_member(q)
                                && self.players_map().contains_key(q.0)) implies exists|i: int|
                            1 <= i < frames@.len() && frames@[i].conn.0
                                == self.players_map()[q.0].conn && is_game_info_for(
                                frames@[i],
                                g_owed,
                            ) by {
                            assert(pub_snapshot.planned_for(g_owed.0, q.0));
                            let j0 = choose|j0: int|
                                0 <= j0 < pubv.len() && pubv[j0].conn.0
                                    == self.players_map()[q.0].conn && is_game_info_for(
                                    pubv[j0],
                                    g_owed,
                                );
                            assert(frames@[1 + j0] == pubv[j0]);
                        }
                    },
                    None => {
                    },
                }
                match data_ghost {
                    ClientMessageData::Identify(claimed_identity) => {
                        if token_verifies(
                            old(self).secret_key(),
                            claimed_identity.player_id,
                            claimed_identity.reconnection_secret.tag@,
                        ) {
                            let claimed = claimed_identity.player_id.0;
                            assert forall|g2: u128|
                                #[trigger] self.lobby_has_member(
                                    g2,
                                    claimed_identity.player_id,
                                ) implies exists|i: int|
                                1 <= i < frames@.len() && frames@[i].conn == client
                                    && is_game_info_for(frames@[i], GameId(g2)) by {
                                assert(pub_snapshot.planned_for(g2, claimed));
                                assert(self.players_map().contains_key(claimed));
                                assert(self.players_map()[claimed].conn == client.0);
                                assert(claimed_identity.player_id == PlayerId(claimed));
                                assert(GameId(g2).0 == g2);
                                assert(self.games_map().contains_key(GameId(g2).0));
                                assert(self.games_map()[GameId(g2).0].common.is_member(
                                    claimed_identity.player_id,
                                ));
                                assert(self.players_map().contains_key(
                                    claimed_identity.player_id.0,
                                ));
                                assert(pub_snapshot.planned_for(GameId(g2).0, claimed));
                                let j0 = choose|j0: int|
                                    0 <= j0 < pubv.len() && pubv[j0].conn.0
                                        == self.players_map()[claimed].conn && is_game_info_for(
                                        pubv[j0],
                                        GameId(g2),
                                    );
                                assert(frames@[1 + j0] == pubv[j0]);
                                assert(frames@[1 + j0].conn.0 == client.0);
                                assert(frames@[1 + j0].conn == ConnectionId(client.0));
                                assert(client == ConnectionId(client.0));
                            }
                        }
                    },
                    _ => {
                    },
                }
            }
        }
        frames
    }

    /// Process one client message, drawing the fresh lobby id at random;
    /// `None` (with no state change) in the unlikely case the draw collided
    /// with an existing lobby, in which case the caller retries.
    pub fn process_message(&mut self, client: ConnectionId, msg: ClientMessage) -> (r: Option<
        Vec<OutboundFrame>,
    >)
        requires
            old(self).wf(),
        ensures
            final(self).wf(),
            final(self).secret_key() == old(self).secret_key(),
            final(self).registry_spec() == old(self).registry_spec(),
            r is None ==> same_state(*old(self), *final(self)),
            r is Some ==> exists|fresh: GameId|
                !old(self).games_map().contains_key(fresh.0) && #[trigger] message_step_rel(
                    *old(self),
                    *final(self),
                    client,
                    msg,
                    fresh,
                    r.unwrap()@,
                ),
    {
        let fresh = GameId(random_u128());
        if self.games.contains_key(&fresh.0) {
            return None;
        }
        let frames = self.process_client_message(client, msg, fresh);
        let result = Some(frames);
        proof {
            assert(message_step_rel(*old(self), *self, client, msg, fresh, result.unwrap()@));
            assert(exists|f2: GameId|
                !old(self).games_map().contains_key(f2.0) && #[trigger] message_step_rel(
                    *old(self),
                    *self,
                    client,
                    msg,
                    f2,
                    result.unwrap()@,
                ));
        }
        result
    }

    /// A malformed frame arrived on a connection: report the parse error to
    /// that connection's player as a server-initiated error, without
    /// disconnecting. Unknown connections get nothing.
    pub fn process_invalid_message(&self, client: ConnectionId, message: String) -> (r: Option<
        OutboundFrame,
    >)
        requires
            self.wf(),
        ensures
            r is Some <==> self.clients_map().contains_key(client.0),
            r matches Some(f) ==> {
                &&& f.conn == client
                &&& f.message matches ServerMessage::ServerSent(ServerSentMessage::Error {
                    message: m,
                }) && m@ == message@
            },
    {
        if self.clients.contains_key(&client.0) {
            Some(
                OutboundFrame {
                    conn: client,
                    message: ServerMessage::ServerSent(ServerSentMessage::Error { message }),
                },
            )
        } else {
            None
        }
    }
}

} // verus!
