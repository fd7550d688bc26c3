//! The game-type registry: a name-to-prototype table, filled before the
//! runtime starts and read-only thereafter. Registering a name again replaces
//! its prototype, so each name has exactly one registration; building a lobby
//! of a given type clones that registration.

use vstd::prelude::*;

use crate::game_state::Game;

verus! {

/// Relies on `str`'s `PartialEq`: equality of the character sequences.
#[verifier::external_body]
fn str_eq(a: &str, b: &str) -> (r: bool)
    ensures
        r == (a@ == b@),
{
    a == b
}

pub struct GameRegistry<G> {
    entries: Vec<(String, G)>,
}

impl<G: Game> GameRegistry<G> {
    /// The registrations: name and prototype, in registration order.
    pub closed spec fn registrations(&self) -> Seq<(Seq<char>, G)> {
        self.entries@.map_values(|e: (String, G)| (e.0@, e.1))
    }

    /// The registered names, in registration order.
    pub open spec fn names(&self) -> Seq<Seq<char>> {
        self.registrations().map_values(|e: (Seq<char>, G)| e.0)
    }

    /// Is a game type of this name registered?
    pub open spec fn has_game(&self, name: Seq<char>) -> bool {
        self.names().contains(name)
    }

    /// Each name is registered at most once.
    pub open spec fn wf(&self) -> bool {
        self.names().no_duplicates()
    }

    pub fn new() -> (r: Self)
        ensures
            r.wf(),
            r.registrations().len() == 0,
    {
        GameRegistry { entries: Vec::new() }
    }

    /// Register one game type under a name, replacing any previous
    /// registration of that name.
    pub fn register(&mut self, name: &str, game: G)
        requires
            old(self).wf(),
        ensures
            final(self).wf(),
            forall|n: Seq<char>| final(self).has_game(n) <==> (old(self).has_game(n) || n == name@),
            !old(self).has_game(name@) ==> {
                &&& final(self).registrations() == old(self).registrations().push((name@, game))
                &&& final(self).names() == old(self).names().push(name@)
            },
            old(self).has_game(name@) ==> exists|i: int|
                {
                    &&& 0 <= i < old(self).registrations().len()
                    &&& old(self).names()[i] == name@
                    &&& final(self).registrations() == old(self).registrations().update(
                        i,
                        (name@, game),
                    )
                    &&& final(self).names() == old(self).names()
                },
    {
        let owned: String = name.to_owned();
        let ghost pre = self.entries@;
        let mut found: bool = false;
        let mut idx: usize = 0;
        let mut i: usize = 0;
        while i < self.entries.len() && !found
            invariant
                i <= pre.len(),
                self.entries@ == pre,
                found ==> idx < pre.len() && pre[idx as int].0@ == name@,
                !found ==> forall|j: int| 0 <= j < i ==> pre[j].0@ != name@,
            decreases pre.len() - i,
        {
            if str_eq(self.entries[i].0.as_str(), name) {
                found = true;
                idx = i;
            }
            i = i + 1;
        }
        let ghost f = |e: (String, G)| (e.0@, e.1);
        let ghost nf = |e: (Seq<char>, G)| e.0;
        if found {
            self.entries.set(idx, (owned, game));
            proof {
                let ii = idx as int;
                assert(self.entries@ == pre.update(ii, (owned, game)));
                assert(self.registrations() =~= pre.map_values(f).update(ii, (name@, game)));
                assert(self.names() =~= pre.map_values(f).map_values(nf));
                assert(old(self).names()[ii] == name@);
                assert(old(self).has_game(name@)) by {
                    assert(old(self).names()[ii] == name@);
                }
                assert forall|n: Seq<char>|
                    self.has_game(n) <==> (old(self).has_game(n) || n == name@) by {
                    if self.has_game(n) {
                        let k = choose|k: int| 0 <= k < self.names().len() && self.names()[k] == n;
                        if k != ii {
                            assert(old(self).names()[k] == n);
                        }
                    }
                    if old(self).has_game(n) {
                        let k = choose|k: int|
                            0 <= k < old(self).names().len() && old(self).names()[k] == n;
                        assert(self.names()[k] == old(self).names()[k]);
                    }
                }
            }
        } else {
            self.entries.push((owned, game));
            proof {
                assert(self.entries@ == pre.push((owned, game)));
                assert(self.registrations() =~= pre.map_values(f).push((name@, game)));
                assert(self.names() =~= old(self).names().push(name@));
                assert(!old(self).names().contains(name@)) by {
                    if old(self).names().contains(name@) {
                        let k = choose|k: int|
                            0 <= k < old(self).names().len() && old(self).names()[k] == name@;
                        assert(old(self).names()[k] == old(self).registrations()[k].0);
                        assert(old(self).registrations()[k].0 == pre[k].0@);
                        assert(pre[k].0@ == name@);
                        assert(false);
                    }
                }
                crate::publish::lemma_push_contains(old(self).names(), name@);
                crate::publish::lemma_push_no_duplicates(old(self).names(), name@);
            }
        }
    }

    /// Instantiate a fresh game state of the named type: a clone of the one
    /// registration under that name, if any.
    pub fn build(&self, name: &str) -> (r: Option<G>)
        ensures
            r is Some <==> self.has_game(name@),
            r matches Some(g) ==> exists|i: int|
                {
                    &&& 0 <= i < self.registrations().len()
                    &&& #[trigger] self.registrations()[i].0 == name@
                    &&& cloned::<G>(self.registrations()[i].1, g)
                },
    {
        let mut i: usize = 0;
        while i < self.entries.len()
            invariant
                i <= self.entries@.len(),
                forall|j: int| 0 <= j < i ==> self.names()[j] != name@,
            decreases self.entries@.len() - i,
        {
            if str_eq(self.entries[i].0.as_str(), name) {
                proof {
                    assert(self.names()[i as int] == name@);
                    assert(self.registrations()[i as int].0 == name@);
                }
                let g = self.entries[i].1.clone();
                proof {
                    assert(cloned::<G>(self.registrations()[i as int].1, g));
                }
                return Some(g);
            }
            i = i + 1;
        }
        proof {
            assert(!self.names().contains(name@)) by {
                if self.names().contains(name@) {
                    let k = choose|k: int| 0 <= k < self.names().len() && self.names()[k] == name@;
                }
            }
        }
        None
    }

    /// The registered names, cloned for a reply to a client.
    pub fn game_names(&self) -> (r: Vec<String>)
        ensures
            r@.map_values(|s: String| s@) == self.names(),
    {
        let mut out: Vec<String> = Vec::new();
        let mut i: usize = 0;
        while i < self.entries.len()
            invariant
                i <= self.entries@.len(),
                out@.len() == i,
                forall|j: int| 0 <= j < i ==> out@[j]@ == self.names()[j],
            decreases self.entries@.len() - i,
        {
            out.push(self.entries[i].0.clone());
            i = i + 1;
        }
        proof {
            assert(out@.map_values(|s: String| s@) =~= self.names());
        }
        out
    }
}

} // verus!
