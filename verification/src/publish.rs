//! The publish planner: while one event is processed, requested state sends
//! are accumulated here and collapsed, so that at most one `GameInfo` frame
//! per lobby and player leaves the server per event.

use std::collections::HashMap;

use vstd::prelude::*;

use crate::protocol::{GameId, PlayerId};

verus! {

broadcast use vstd::std_specs::hash::group_hash_axioms;

/// Keeps track of which lobby states need sending to which players. An entry
/// of `None` means "all current members"; a set means "exactly these players".
pub struct PublishGameState {
    /// `None` as a value means all players of that lobby.
    games: HashMap<u128, Option<Vec<u128>>>,
    /// The planned lobby ids, in first-request order.
    order: Vec<u128>,
}

impl PublishGameState {
    /// The plan: lobby id to requested audience.
    pub closed spec fn plan(&self) -> Map<u128, Option<Vec<u128>>> {
        self.games@
    }

    /// The planned lobby ids in request order.
    pub closed spec fn order_list(&self) -> Seq<u128> {
        self.order@
    }

    /// The order list holds exactly the planned ids, each once, and no
    /// targeted audience names a player twice.
    pub open spec fn wf(&self) -> bool {
        &&& self.order_list().no_duplicates()
        &&& forall|g: u128| self.plan().contains_key(g) <==> self.order_list().contains(g)
        &&& forall|g: u128|
            #[trigger] self.plan().contains_key(g) ==> match self.plan()[g] {
                Some(v) => v@.no_duplicates(),
                None => true,
            }
    }

    /// Does the plan ask for a send of lobby `g` to player `p`?
    pub open spec fn planned_for(&self, g: u128, p: u128) -> bool {
        self.plan().contains_key(g) && match self.plan()[g] {
            None => true,
            Some(v) => v@.contains(p),
        }
    }

    pub fn new() -> (r: Self)
        ensures
            r.wf(),
            r.plan() == Map::<u128, Option<Vec<u128>>>::empty(),
            r.order_list().len() == 0,
    {
        PublishGameState { games: HashMap::new(), order: Vec::new() }
    }

    /// Plan a broadcast of lobby `g` to all its members, overriding any
    /// previous partial audience.
    pub fn add_all(&mut self, game_id: GameId)
        requires
            old(self).wf(),
        ensures
            final(self).wf(),
            final(self).plan() == old(self).plan().insert(game_id.0, None::<Vec<u128>>),
            old(self).plan().contains_key(game_id.0) ==> final(self).order_list() == old(
                self,
            ).order_list(),
            !old(self).plan().contains_key(game_id.0) ==> final(self).order_list() == old(
                self,
            ).order_list().push(game_id.0),
    {
        let g = game_id.0;
        if !self.games.contains_key(&g) {
            self.order.push(g);
            proof {
                lemma_push_contains(old(self).order@, g);
                assert(!old(self).order@.contains(g));
                lemma_push_no_duplicates(old(self).order@, g);
            }
        }
        self.games.insert(g, None);
        proof {
            assert forall|k: u128|
                self.plan().contains_key(k) <==> self.order_list().contains(k) by {
                if k != g {
                    assert(self.plan().contains_key(k) == old(self).plan().contains_key(k));
                }
            }
        }
    }

    /// Plan a send of lobby `g` to player `p` alone (in addition to any other
    /// players already planned); a no-op when a broadcast is already planned.
    pub fn add(&mut self, game_id: GameId, player_id: PlayerId)
        requires
            old(self).wf(),
        ensures
            final(self).wf(),
            final(self).plan().dom() == old(self).plan().dom().insert(game_id.0),
            forall|k: u128|
                k != game_id.0 && old(self).plan().contains_key(k) ==> final(self).plan()[k]
                    == old(self).plan()[k],
            final(self).planned_for(game_id.0, player_id.0),
            forall|q: u128|
                final(self).planned_for(game_id.0, q) <==> (old(self).planned_for(game_id.0, q)
                    || q == player_id.0),
            old(self).plan().contains_key(game_id.0) ==> final(self).order_list() == old(
                self,
            ).order_list(),
            !old(self).plan().contains_key(game_id.0) ==> final(self).order_list() == old(
                self,
            ).order_list().push(game_id.0),
    {
        let g = game_id.0;
        let p = player_id.0;
        match self.games.remove(&g) {
            None => {
                let mut v: Vec<u128> = Vec::new();
                v.push(p);
                proof {
                    assert(v@ =~= seq![p]);
                    assert(v@[0] == p);
                }
                self.games.insert(g, Some(v));
                self.order.push(g);
                proof {
                    lemma_push_contains(old(self).order@, g);
                    assert(!old(self).order@.contains(g));
                    lemma_push_no_duplicates(old(self).order@, g);
                    assert(self.plan().dom() =~= old(self).plan().dom().insert(g));
                }
            },
            Some(None) => {
                self.games.insert(g, None);
                proof {
                    assert(self.plan() =~= old(self).plan());
                    assert(self.plan().dom() =~= old(self).plan().dom().insert(g));
                }
            },
            Some(Some(v)) => {
                let mut v = v;
                let present = contains_u128(&v, p);
                if !present {
                    v.push(p);
                    proof {
                        lemma_push_contains(old(self).plan()[g].unwrap()@, p);
                    }
                }
                self.games.insert(g, Some(v));
                proof {
                    assert(self.plan().dom() =~= old(self).plan().dom().insert(g));
                }
            },
        }
        proof {
            assert forall|k: u128|
                self.plan().contains_key(k) <==> self.order_list().contains(k) by {
                if k != g {
                    assert(self.plan().contains_key(k) == old(self).plan().contains_key(k));
                }
            }
        }
    }

    /// The planned ids for iteration, in request order.
    pub fn planned_ids(&self) -> (r: Vec<u128>)
        ensures
            r@ == self.order_list(),
    {
        copy_u128s(&self.order)
    }

    /// The planned audience for one lobby: `None` when not planned, otherwise
    /// the request (`None` inside meaning all members).
    pub fn audience(&self, g: u128) -> (r: Option<Option<Vec<u128>>>)
        ensures
            r is Some <==> self.plan().contains_key(g),
            r is Some ==> {
                &&& (r.unwrap() is None <==> self.plan()[g] is None)
                &&& (r.unwrap() matches Some(v) ==> self.plan()[g] matches Some(v0) && v@ == v0@)
            },
    {
        match self.games.get(&g) {
            None => None,
            Some(None) => Some(None),
            Some(Some(v)) => Some(Some(copy_u128s(v))),
        }
    }
}

/// Linear membership scan.
pub fn contains_u128(v: &Vec<u128>, x: u128) -> (r: bool)
    ensures
        r == v@.contains(x),
{
    let mut i: usize = 0;
    while i < v.len()
        invariant
            i <= v@.len(),
            forall|j: int| 0 <= j < i ==> v@[j] != x,
        decreases v@.len() - i,
    {
        if v[i] == x {
            return true;
        }
        i = i + 1;
    }
    false
}

/// An element-wise copy.
pub fn copy_u128s(v: &Vec<u128>) -> (r: Vec<u128>)
    ensures
        r@ == v@,
{
    let mut out: Vec<u128> = Vec::new();
    let mut i: usize = 0;
    while i < v.len()
        invariant
            i <= v@.len(),
            out@ =~= v@.subrange(0, i as int),
        decreases v@.len() - i,
    {
        out.push(v[i]);
        i = i + 1;
    }
    proof {
        assert(out@ =~= v@);
    }
    out
}

/// Pushing an element not already present preserves freedom from duplicates.
pub proof fn lemma_push_no_duplicates<A>(s: Seq<A>, x: A)
    requires
        s.no_duplicates(),
        !s.contains(x),
    ensures
        s.push(x).no_duplicates(),
{
    let s2 = s.push(x);
    assert forall|a: int, b: int| 0 <= a < b < s2.len() implies s2[a] != s2[b] by {
        if b < s.len() {
            assert(s2[a] == s[a] && s2[b] == s[b]);
        } else {
            assert(s2[b] == x && s2[a] == s[a]);
            assert(s.contains(s[a]));
        }
    }
}

/// Membership in a pushed sequence: the old elements and the new one.
pub proof fn lemma_push_contains<A>(s: Seq<A>, x: A)
    ensures
        forall|y: A| #[trigger] s.push(x).contains(y) <==> (s.contains(y) || y == x),
{
    assert forall|y: A| #[trigger] s.push(x).contains(y) implies (s.contains(y) || y == x) by {
        let k = choose|k: int| 0 <= k < s.push(x).len() && s.push(x)[k] == y;
        if k < s.len() {
            assert(s[k] == y);
        }
    }
    assert forall|y: A| (s.contains(y) || y == x) implies #[trigger] s.push(x).contains(y) by {
        if s.contains(y) {
            let k = choose|k: int| 0 <= k < s.len() && s[k] == y;
            assert(s.push(x)[k] == y);
        } else {
            assert(s.push(x)[s.len() as int] == y);
        }
    }
}

} // verus!
