//! Common lobby state, the updates a plug-in returns, and the game plug-in
//! contract together with the lobby facade around it.

use vstd::prelude::*;

use crate::event_queue::EventQueue;
use crate::protocol::{GameId, PlayerId};
use crate::publish::PublishGameState;
use crate::random::random_u128;

verus! {

/// Correlates a scheduled timer event with the plug-in that asked for it.
#[derive(Debug, Clone, Copy, PartialEq, Eq, Structural)]
pub struct EventId(pub u128);

impl EventId {
    /// A fresh random identifier.
    fn new() -> Self {
        EventId(random_u128())
    }
}

/// What a plug-in wants done after one of its handlers returns: whether the
/// public state changed (and so needs broadcasting), and which timer events to
/// schedule. Values compose by disjunction of the flag and concatenation of
/// the timer list.
#[must_use]
pub struct Updates {
    /// Broadcast new state to all players.
    pub state_changed: bool,
    /// Timer events to schedule, as (deadline, event) pairs.
    pub events: Vec<(u64, EventId)>,
}

impl Updates {
    pub fn new(state_changed: bool) -> (r: Self)
        ensures
            r.state_changed == state_changed,
            r.events@.len() == 0,
    {
        Updates { state_changed, events: Vec::new() }
    }

    /// Nothing changed, nothing to schedule.
    pub fn none() -> (r: Self)
        ensures
            !r.state_changed,
            r.events@.len() == 0,
    {
        Updates::new(false)
    }

    /// The public state changed; nothing to schedule.
    pub fn changed() -> (r: Self)
        ensures
            r.state_changed,
            r.events@.len() == 0,
    {
        Updates::new(true)
    }

    pub fn merge(self, other: Self) -> (r: Self)
        ensures
            r.state_changed == (self.state_changed || other.state_changed),
            r.events@ == self.events@ + other.events@,
    {
        let Updates { state_changed, events } = self;
        let Updates { state_changed: other_changed, events: other_events } = other;
        let mut events = events;
        let mut other_events = other_events;
        events.append(&mut other_events);
        Updates { state_changed: state_changed || other_changed, events }
    }

    /// Schedule a fresh timer event at `at`; returns its identifier.
    pub fn add_timeout(&mut self, at: u64) -> (r: EventId)
        ensures
            final(self).state_changed == old(self).state_changed,
            final(self).events@ == old(self).events@.push((at, r)),
    {
        let id = EventId::new();
        self.events.push((at, id));
        id
    }

    /// Request a broadcast whatever the handler decided.
    pub fn always_publish(self) -> (r: Self)
        ensures
            r.state_changed,
            r.events@ == self.events@,
    {
        let Updates { state_changed: _, events } = self;
        Updates { state_changed: true, events }
    }

    /// Enact these updates for one lobby: plan a broadcast when the state
    /// changed, and schedule the requested timer events against that lobby.
    pub fn apply(
        self,
        game_id: GameId,
        publish: &mut PublishGameState,
        scheduled: &mut EventQueue<(GameId, EventId)>,
    )
        requires
            old(publish).wf(),
            old(scheduled).wf(),
        ensures
            final(publish).wf(),
            final(scheduled).wf(),
            self.state_changed ==> final(publish).plan() == old(publish).plan().insert(
                game_id.0,
                None::<Vec<u128>>,
            ),
            !self.state_changed ==> *final(publish) == *old(publish),
            final(scheduled).items().len() == old(scheduled).items().len() + self.events@.len(),
            forall|e: (u64, (GameId, EventId))|
                old(scheduled).items().contains(e) ==> final(scheduled).items().contains(e),
            forall|k: int|
                0 <= k < self.events@.len() ==> final(scheduled).items().contains(
                    (self.events@[k].0, (game_id, self.events@[k].1)),
                ),
            forall|j: int|
                0 <= j < final(scheduled).items().len() ==> (old(scheduled).items().contains(
                    final(scheduled).items()[j],
                ) || final(scheduled).items()[j].1.0 == game_id),
    {
        if self.state_changed {
            publish.add_all(game_id);
        }
        let _ = self.apply_schedule(game_id, scheduled);
    }

    /// Schedule the requested timer events against one lobby. Returns whether
    /// the state changed and needs broadcasting.
    pub fn apply_schedule(
        self,
        game_id: GameId,
        scheduled: &mut EventQueue<(GameId, EventId)>,
    ) -> (changed: bool)
        requires
            old(scheduled).wf(),
        ensures
            changed == self.state_changed,
            final(scheduled).wf(),
            final(scheduled).items().len() == old(scheduled).items().len() + self.events@.len(),
            forall|e: (u64, (GameId, EventId))|
                old(scheduled).items().contains(e) ==> final(scheduled).items().contains(e),
            forall|k: int|
                0 <= k < self.events@.len() ==> final(scheduled).items().contains(
                    (self.events@[k].0, (game_id, self.events@[k].1)),
                ),
            forall|j: int|
                0 <= j < final(scheduled).items().len() ==> (old(scheduled).items().contains(
                    final(scheduled).items()[j],
                ) || final(scheduled).items()[j].1.0 == game_id),
    {
        let Updates { state_changed, events } = self;
        let mut i: usize = 0;
        while i < events.len()
            invariant
                i <= events@.len(),
                scheduled.wf(),
                scheduled.items().len() == old(scheduled).items().len() + i,
                forall|e: (u64, (GameId, EventId))|
                    old(scheduled).items().contains(e) ==> scheduled.items().contains(e),
                forall|k: int|
                    0 <= k < i ==> scheduled.items().contains(
                        (events@[k].0, (game_id, events@[k].1)),
                    ),
                forall|j: int|
                    0 <= j < scheduled.items().len() ==> (old(scheduled).items().contains(
                        scheduled.items()[j],
                    ) || scheduled.items()[j].1.0 == game_id),
            decreases events@.len() - i,
        {
            let ghost pre = scheduled.items();
            let (at, event_id) = events[i];
            scheduled.add((game_id, event_id), at);
            proof {
                assert forall|j: int|
                    0 <= j < scheduled.items().len() implies (old(scheduled).items().contains(
                        scheduled.items()[j],
                    ) || scheduled.items()[j].1.0 == game_id) by {
                    let e = scheduled.items()[j];
                    if e == (at, (game_id, event_id)) {
                        assert(e.1.0 == game_id);
                    } else {
                        assert(pre.contains(e));
                        let k = choose|k: int| 0 <= k < pre.len() && pre[k] == e;
                    }
                }
                assert forall|e: (u64, (GameId, EventId))|
                    old(scheduled).items().contains(e) implies scheduled.items().contains(e) by {
                    assert(pre.contains(e));
                }
                assert forall|k: int|
                    0 <= k < i + 1 implies scheduled.items().contains(
                    (events@[k].0, (game_id, events@[k].1)),
                ) by {
                    if k < i {
                        assert(pre.contains((events@[k].0, (game_id, events@[k].1))));
                    } else {
                        assert((events@[k].0, (game_id, events@[k].1)) == (at, (game_id, event_id)));
                    }
                }
            }
            i = i + 1;
        }
        state_changed
    }
}

/// The state every game type shares: the leader and the member list, kept
/// sorted by identifier so that broadcasts are deterministic and the smallest
/// member is at hand for leader reassignment.
#[derive(Debug)]
pub struct GameCommon {
    pub leader: PlayerId,
    pub players: Vec<PlayerId>,
}

impl GameCommon {
    /// Strictly increasing by identifier: sorted, and free of duplicates.
    pub open spec fn sorted(s: Seq<PlayerId>) -> bool {
        forall|i: int, j: int| 0 <= i < j < s.len() ==> s[i].0 < s[j].0
    }

    /// The member list is sorted and the leader of a non-empty lobby is a
    /// member.
    pub open spec fn wf(&self) -> bool {
        &&& Self::sorted(self.players@)
        &&& self.players@.len() > 0 ==> self.players@.contains(self.leader)
    }

    pub open spec fn is_member(&self, player: PlayerId) -> bool {
        self.players@.contains(player)
    }

    /// A fresh lobby common state: the creator is the only member and leads.
    pub fn new(creator: PlayerId) -> (r: GameCommon)
        ensures
            r.wf(),
            r.leader == creator,
            r.players@ == seq![creator],
    {
        let mut players: Vec<PlayerId> = Vec::new();
        players.push(creator);
        proof {
            assert(players@ =~= seq![creator]);
            assert(players@[0] == creator);
            assert(players@.contains(creator));
        }
        GameCommon { leader: creator, players }
    }

    pub fn contains_player(&self, player: &PlayerId) -> (r: bool)
        ensures
            r == self.is_member(*player),
    {
        let mut i: usize = 0;
        while i < self.players.len()
            invariant
                i <= self.players@.len(),
                forall|j: int| 0 <= j < i ==> self.players@[j] != *player,
            decreases self.players@.len() - i,
        {
            if self.players[i].0 == player.0 {
                proof {
                    assert(self.players@[i as int] == *player);
                }
                return true;
            }
            i = i + 1;
        }
        false
    }

    /// Add a member, keeping the list sorted. Joining an empty lobby makes the
    /// joiner its leader; otherwise the leader is untouched.
    pub fn insert_member(&mut self, player: PlayerId) -> (added: bool)
        requires
            old(self).wf(),
        ensures
            final(self).wf(),
            added == !old(self).is_member(player),
            forall|q: PlayerId|
                final(self).is_member(q) <==> (old(self).is_member(q) || q == player),
            final(self).players@.len() == old(self).players@.len() + (if added {
                1int
            } else {
                0
            }),
            old(self).players@.len() > 0 ==> final(self).leader == old(self).leader,
            old(self).players@.len() == 0 ==> final(self).leader == player,
            final(self).is_member(player),
    {
        let ghost s = self.players@;
        let mut i: usize = 0;
        while i < self.players.len() && self.players[i].0 < player.0
            invariant
                i <= s.len(),
                *self == *old(self),
                s == self.players@,
                GameCommon::sorted(s),
                forall|j: int| 0 <= j < i ==> s[j].0 < player.0,
            decreases s.len() - i,
        {
            i = i + 1;
        }
        if i < self.players.len() && self.players[i].0 == player.0 {
            proof {
                assert(self.players@[i as int] == player);
            }
            return false;
        }
        proof {
            assert forall|j: int| i <= j < s.len() implies s[j].0 > player.0 by {
                assert(s[i as int].0 != player.0);
                assert(!(s[i as int].0 < player.0));
                if j > i {
                    assert(s[i as int].0 < s[j].0);
                }
            }
            assert(!s.contains(player)) by {
                if s.contains(player) {
                    let k = choose|k: int| 0 <= k < s.len() && s[k] == player;
                    assert(s[k].0 == player.0);
                }
            }
        }
        if self.players.len() == 0 {
            self.leader = player;
        }
        self.players.insert(i, player);
        proof {
            s.insert_ensures(i as int, player);
            let s2 = self.players@;
            assert forall|a: int, b: int| 0 <= a < b < s2.len() implies s2[a].0 < s2[b].0 by {
                let ii = i as int;
                if b < ii {
                    assert(s2[a] == s[a] && s2[b] == s[b]);
                } else if a > ii {
                    assert(s2[a] == s[a - 1] && s2[b] == s[b - 1]);
                } else if a < ii && b == ii {
                    assert(s2[a] == s[a] && s2[b] == player);
                } else if a == ii && b > ii {
                    assert(s2[a] == player && s2[b] == s[b - 1]);
                } else if a < ii && b > ii {
                    assert(s2[a] == s[a] && s2[b] == s[b - 1]);
                    assert(s[a].0 < player.0 && player.0 < s[b - 1].0);
                }
            }
            assert forall|q: PlayerId| s2.contains(q) <==> (s.contains(q) || q == player) by {
                if s2.contains(q) {
                    let k = choose|k: int| 0 <= k < s2.len() && s2[k] == q;
                    if k < i {
                        assert(s[k] == q);
                    } else if k == i {
                        assert(q == player);
                    } else {
                        assert(s[k - 1] == q);
                    }
                }
                if s.contains(q) {
                    let k = choose|k: int| 0 <= k < s.len() && s[k] == q;
                    if k < i {
                        assert(s2[k] == q);
                    } else {
                        assert(s2[k + 1] == q);
                    }
                }
                if q == player {
                    assert(s2[i as int] == q);
                }
            }
            assert(s2.contains(self.leader)) by {
                if s.len() == 0 {
                    assert(self.leader == player);
                } else {
                    assert(s.contains(old(self).leader));
                }
            }
        }
        true
    }

    /// Remove a member, keeping the list sorted. When the removed member led a
    /// still non-empty lobby, the smallest remaining member becomes leader.
    pub fn remove_member(&mut self, player: &PlayerId) -> (removed: bool)
        requires
            old(self).wf(),
        ensures
            final(self).wf(),
            removed == old(self).is_member(*player),
            forall|q: PlayerId|
                final(self).is_member(q) <==> (old(self).is_member(q) && q != *player),
            final(self).players@.len() == old(self).players@.len() - (if removed {
                1int
            } else {
                0
            }),
            !removed ==> *final(self) == *old(self),
            old(self).leader != *player ==> final(self).leader == old(self).leader,
            old(self).leader == *player && final(self).players@.len() > 0 ==> final(self).leader
                == final(self).players@[0],
    {
        let ghost s = self.players@;
        let mut i: usize = 0;
        while i < self.players.len()
            invariant
                i <= s.len(),
                *self == *old(self),
                s == self.players@,
                GameCommon::sorted(s),
                old(self).players@.len() > 0 ==> s.contains(old(self).leader),
                forall|j: int| 0 <= j < i ==> s[j] != *player,
            decreases s.len() - i,
        {
            if self.players[i].0 == player.0 {
                let ghost ii = i as int;
                proof {
                    assert(s[ii] == *player);
                }
                self.players.remove(i);
                proof {
                    s.remove_ensures(ii);
                    let s2 = self.players@;
                    assert(s2 == s.remove(ii));
                    assert forall|a: int, b: int| 0 <= a < b < s2.len() implies s2[a].0 < s2[b].0
                    by {
                        if b < ii {
                            assert(s2[a] == s[a] && s2[b] == s[b]);
                        } else if a >= ii {
                            assert(s2[a] == s[a + 1] && s2[b] == s[b + 1]);
                            assert(s[a + 1].0 < s[b + 1].0);
                        } else {
                            assert(s2[a] == s[a] && s2[b] == s[b + 1]);
                            assert(s[a].0 < s[b + 1].0);
                        }
                    }
                    assert forall|q: PlayerId|
                        s2.contains(q) <==> (s.contains(q) && q != *player) by {
                        if s2.contains(q) {
                            let k = choose|k: int| 0 <= k < s2.len() && s2[k] == q;
                            if k < ii {
                                assert(s2[k] == s[k]);
                                assert(s.contains(q));
                                if q == *player {
                                    assert(s[k].0 < s[ii].0);
                                    assert(false);
                                }
                            } else {
                                assert(s2[k] == s[k + 1]);
                                assert(s.contains(q));
                                if q == *player {
                                    assert(s[ii].0 < s[k + 1].0);
                                    assert(false);
                                }
                            }
                        }
                        if s.contains(q) && q != *player {
                            let k = choose|k: int| 0 <= k < s.len() && s[k] == q;
                            if k < ii {
                                assert(s2[k] == q);
                            } else if k > ii {
                                assert(s2[k - 1] == q);
                            } else {
                                assert(false);
                            }
                        }
                    }
                }
                if self.players.len() > 0 {
                    if self.leader.0 == player.0 {
                        proof {
                            assert(self.leader == *player);
                        }
                        self.leader = self.players[0];
                        proof {
                            assert(self.players@.contains(self.leader)) by {
                                assert(self.players@[0] == self.leader);
                            }
                        }
                    } else {
                        proof {
                            assert(self.leader != *player);
                            assert(s.contains(self.leader));
                            assert(self.players@.contains(self.leader));
                        }
                    }
                }
                return true;
            }
            i = i + 1;
        }
        proof {
            assert(!s.contains(*player)) by {
                if s.contains(*player) {
                    let k = choose|k: int| 0 <= k < s.len() && s[k] == *player;
                }
            }
        }
        false
    }
}

/// The capability set every game type supplies. Handlers run under the
/// runtime's serialization guarantee (one in-flight call per lobby), never
/// touch the network or the scheduler, and declare consequences as `Updates`.
pub trait Game: Sized + Clone {
    /// The view shown to every member.
    fn public_state(&self, common: &GameCommon) -> serde_json::Value;

    /// The per-player private view.
    fn state_for_player(&self, common: &GameCommon, player: PlayerId) -> serde_json::Value;

    /// Does the game accept new players at the moment?
    fn can_join(&self, _common: &GameCommon) -> bool {
        true
    }

    /// Does the game accept reconnecting players at the moment?
    fn can_reconnect(&self, _common: &GameCommon) -> bool {
        true
    }

    fn on_disconnect(&mut self, _common: &GameCommon, _player: PlayerId) -> Updates {
        Updates::none()
    }

    fn on_reconnect(&mut self, _common: &GameCommon, _player: PlayerId) -> Updates {
        Updates::none()
    }

    fn on_join(&mut self, _common: &GameCommon, _player: PlayerId) -> Updates {
        Updates::none()
    }

    fn on_leave(&mut self, _common: &GameCommon, _player: PlayerId) -> Updates {
        Updates::none()
    }

    fn on_kick(&mut self, _common: &GameCommon, _player: PlayerId) -> Updates {
        Updates::none()
    }

    /// A timer event this game scheduled has fired.
    fn on_event(&mut self, common: &GameCommon, id: EventId) -> Updates;

    /// A game-specific client message; the second component is the reply to
    /// that client.
    fn on_message_from(
        &mut self,
        common: &GameCommon,
        player: PlayerId,
        message: serde_json::Value,
    ) -> (Updates, Result<serde_json::Value, serde_json::Value>);
}

/// A running game session: the common state plus the game plug-in's own state.
/// A thin facade: each method reads the common state or forwards to the
/// plug-in hook; none of them touches the member list or the leader.
pub struct Lobby<G> {
    /// Common state for all game types.
    pub common: GameCommon,
    /// State specific to the current game type.
    pub state: G,
}

impl<G: Game> Lobby<G> {
    pub open spec fn wf(&self) -> bool {
        self.common.wf()
    }

    /// Remove a member; reassign the leadership by the smallest-id rule when
    /// the leader left. Returns false when the player was not a member.
    pub fn try_remove_player(&mut self, player: &PlayerId) -> (removed: bool)
        requires
            old(self).wf(),
        ensures
            final(self).wf(),
            removed == old(self).common.is_member(*player),
            !removed ==> *final(self) == *old(self),
            forall|q: PlayerId|
                final(self).common.is_member(q) <==> (old(self).common.is_member(q) && q
                    != *player),
            final(self).common.players@.len() == old(self).common.players@.len() - (if removed {
                1int
            } else {
                0
            }),
            old(self).common.leader != *player ==> final(self).common.leader
                == old(self).common.leader,
            old(self).common.leader == *player && final(self).common.players@.len() > 0
                ==> final(self).common.leader == final(self).common.players@[0],
            final(self).state == old(self).state,
    {
        self.common.remove_member(player)
    }

    pub fn public_state(&self) -> serde_json::Value {
        self.state.public_state(&self.common)
    }

    pub fn state_for_player(&self, player: PlayerId) -> serde_json::Value {
        self.state.state_for_player(&self.common, player)
    }

    pub fn can_join(&self) -> bool {
        self.state.can_join(&self.common)
    }

    pub fn can_reconnect(&self) -> bool {
        self.state.can_reconnect(&self.common)
    }

    pub fn on_disconnect(&mut self, player: PlayerId) -> (u: Updates)
        ensures
            final(self).common == old(self).common,
    {
        self.state.on_disconnect(&self.common, player)
    }

    pub fn on_reconnect(&mut self, player: PlayerId) -> (u: Updates)
        ensures
            final(self).common == old(self).common,
    {
        self.state.on_reconnect(&self.common, player)
    }

    pub fn on_join(&mut self, player: PlayerId) -> (u: Updates)
        ensures
            final(self).common == old(self).common,
    {
        self.state.on_join(&self.common, player)
    }

    pub fn on_leave(&mut self, player: PlayerId) -> (u: Updates)
        ensures
            final(self).common == old(self).common,
    {
        self.state.on_leave(&self.common, player)
    }

    pub fn on_kick(&mut self, player: PlayerId) -> (u: Updates)
        ensures
            final(self).common == old(self).common,
    {
        self.state.on_kick(&self.common, player)
    }

    pub fn on_event(&mut self, id: EventId) -> (u: Updates)
        ensures
            final(self).common == old(self).common,
    {
        self.state.on_event(&self.common, id)
    }

    pub fn on_message_from(&mut self, player: PlayerId, message: serde_json::Value) -> (r: (
        Updates,
        Result<serde_json::Value, serde_json::Value>,
    ))
        ensures
            final(self).common == old(self).common,
    {
        self.state.on_message_from(&self.common, player, message)
    }
}

} // verus!
