//! Rules data for the bluffing game: the private record the server keeps for
//! each player and the public projection every player may see.

use vstd::prelude::*;

verus! {

/// One disc on the table: each player owns one skull and several flowers.
#[derive(Debug, Clone, Copy, PartialEq, Eq, Structural)]
pub enum Tile {
    Skull,
    Flower,
}

/// Full game information, as the server keeps it.
#[derive(Debug, Clone, PartialEq, Eq)]
pub struct GamePrivate {
    pub players: Vec<PlayerPrivate>,
    pub actions: Vec<ActionPrivate>,
}

/// Fully public game information.
#[derive(Debug, Clone, PartialEq, Eq)]
pub struct GamePublic {
    pub players: Vec<PlayerPublic>,
    pub actions: Vec<ActionPublic>,
}

/// What the server knows of one player.
#[derive(Debug, Clone, Copy, PartialEq, Eq, Structural)]
pub struct PlayerPrivate {
    pub has_point: bool,
    pub tiles: usize,
    pub has_skull: bool,
    pub skull_known: bool,
}

/// What everyone may know of one player: the skull flag is shown only once it
/// is public knowledge.
#[derive(Debug, Clone, Copy, PartialEq, Eq, Structural)]
pub struct PlayerPublic {
    pub has_point: bool,
    pub tiles: usize,
    pub has_skull: Option<bool>,
}

/// A move as everyone may see it: what tile was placed stays hidden.
#[derive(Debug, Clone, Copy, PartialEq, Eq, Structural)]
pub enum ActionPublic {
    Place,
    Challenge(Option<usize>),
    Reveal(usize),
}

/// A move as the server keeps it.
#[derive(Debug, Clone, Copy, PartialEq, Eq, Structural)]
pub enum ActionPrivate {
    Place(Tile),
    Challenge(Option<usize>),
    Reveal(usize),
}

impl PlayerPrivate {
    /// The record every player starts from: four tiles, one of them the skull,
    /// which everyone knows about at the start.
    pub open spec fn initial() -> PlayerPrivate {
        PlayerPrivate { has_point: false, tiles: 4, has_skull: true, skull_known: true }
    }

    /// The public projection: the skull flag is disclosed only when known.
    pub open spec fn spec_public(self) -> PlayerPublic {
        PlayerPublic {
            has_point: self.has_point,
            tiles: self.tiles,
            has_skull: if self.skull_known {
                Some(self.has_skull)
            } else {
                None
            },
        }
    }

    pub fn public(self) -> (r: PlayerPublic)
        ensures
            r == self.spec_public(),
    {
        PlayerPublic {
            has_point: self.has_point,
            tiles: self.tiles,
            has_skull: if self.skull_known {
                Some(self.has_skull)
            } else {
                None
            },
        }
    }
}

impl ActionPrivate {
    /// The public projection: a placed tile is hidden, the rest is shown.
    pub open spec fn spec_public(self) -> ActionPublic {
        match self {
            ActionPrivate::Place(_) => ActionPublic::Place,
            ActionPrivate::Challenge(n) => ActionPublic::Challenge(n),
            ActionPrivate::Reveal(n) => ActionPublic::Reveal(n),
        }
    }

    pub fn public(self) -> (r: ActionPublic)
        ensures
            r == self.spec_public(),
    {
        match self {
            ActionPrivate::Place(_) => ActionPublic::Place,
            ActionPrivate::Challenge(n) => ActionPublic::Challenge(n),
            ActionPrivate::Reveal(n) => ActionPublic::Reveal(n),
        }
    }
}

impl GamePrivate {
    /// A fresh game: every player holds the initial record, no move yet.
    pub fn new(player_count: usize) -> (r: GamePrivate)
        ensures
            r.players@.len() == player_count,
            forall|i: int|
                0 <= i < player_count ==> r.players@[i] == PlayerPrivate::initial(),
            r.actions@.len() == 0,
    {
        let mut players: Vec<PlayerPrivate> = Vec::new();
        let mut i: usize = 0;
        while i < player_count
            invariant
                i <= player_count,
                players@.len() == i,
                forall|j: int| 0 <= j < i ==> players@[j] == PlayerPrivate::initial(),
            decreases player_count - i,
        {
            players.push(
                PlayerPrivate { has_point: false, tiles: 4, has_skull: true, skull_known: true },
            );
            i = i + 1;
        }
        GamePrivate { players, actions: Vec::new() }
    }

    /// The view handed to one player: the public projection of everything,
    /// plus that player's own private record.
    pub fn for_player(&self, player: usize) -> (r: (GamePublic, PlayerPrivate))
        requires
            player < self.players@.len(),
        ensures
            r.0.players@ == self.players@.map_values(|p: PlayerPrivate| p.spec_public()),
            r.0.actions@ == self.actions@.map_values(|a: ActionPrivate| a.spec_public()),
            r.1 == self.players@[player as int],
    {
        let mut players: Vec<PlayerPublic> = Vec::new();
        let mut i: usize = 0;
        while i < self.players.len()
            invariant
                i <= self.players@.len(),
                players@.len() == i,
                forall|j: int| 0 <= j < i ==> players@[j] == self.players@[j].spec_public(),
            decreases self.players@.len() - i,
        {
            players.push(self.players[i].public());
            i = i + 1;
        }
        let mut actions: Vec<ActionPublic> = Vec::new();
        let mut k: usize = 0;
        while k < self.actions.len()
            invariant
                k <= self.actions@.len(),
                actions@.len() == k,
                forall|j: int| 0 <= j < k ==> actions@[j] == self.actions@[j].spec_public(),
            decreases self.actions@.len() - k,
        {
            actions.push(self.actions[k].public());
            k = k + 1;
        }
        proof {
            assert(players@ =~= self.players@.map_values(|p: PlayerPrivate| p.spec_public()));
            assert(actions@ =~= self.actions@.map_values(|a: ActionPrivate| a.spec_public()));
        }
        (GamePublic { players, actions }, self.players[player])
    }
}

} // verus!
