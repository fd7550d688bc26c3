//! A deadline-ordered queue of pending timer events. Deadlines are
//! caller-supplied monotonic timestamps in milliseconds; entries with equal
//! deadlines keep their insertion order, so ordering is deterministic.

use vstd::prelude::*;

verus! {

pub struct EventQueue<T> {
    queue: Vec<(u64, T)>,
}

/// Where a stable sorted insert puts an entry due at `time`: after every
/// entry due no later, i.e. at the length of the longest prefix of deadlines
/// that do not exceed `time`.
pub open spec fn insert_position<T>(items: Seq<(u64, T)>, time: u64) -> int
    decreases items.len(),
{
    if items.len() == 0 || items[0].0 > time {
        0
    } else {
        1 + insert_position(items.drop_first(), time)
    }
}

/// The insert position is the one index bounded by due-or-earlier entries on
/// the left and a strictly later entry (if any) on the right.
pub proof fn lemma_insert_position_is<T>(items: Seq<(u64, T)>, time: u64, k: int)
    requires
        0 <= k <= items.len(),
        forall|j: int| 0 <= j < k ==> items[j].0 <= time,
        k < items.len() ==> items[k].0 > time,
    ensures
        insert_position(items, time) == k,
    decreases items.len(),
{
    if items.len() == 0 || items[0].0 > time {
        assert(k == 0);
    } else {
        assert(k >= 1) by {
            if k == 0 {
                assert(items[0].0 > time);
            }
        }
        let rest = items.drop_first();
        assert forall|j: int| 0 <= j < k - 1 implies rest[j].0 <= time by {
            assert(rest[j] == items[j + 1]);
        }
        if k - 1 < rest.len() {
            assert(rest[k - 1] == items[k]);
        }
        lemma_insert_position_is(rest, time, k - 1);
    }
}

impl<T> EventQueue<T> {
    /// The pending entries as (deadline, payload) pairs, earliest first.
    pub closed spec fn items(&self) -> Seq<(u64, T)> {
        self.queue@
    }

    /// Deadlines never decrease along the queue.
    pub open spec fn wf(&self) -> bool {
        forall|i: int, j: int|
            0 <= i < j < self.items().len() ==> self.items()[i].0 <= self.items()[j].0
    }

    pub fn new() -> (r: Self)
        ensures
            r.items().len() == 0,
            r.wf(),
    {
        EventQueue { queue: Vec::new() }
    }

    /// Insert an entry due at `time`, after every entry due no later.
    pub fn add(&mut self, item: T, time: u64)
        requires
            old(self).wf(),
        ensures
            final(self).wf(),
            final(self).items() == old(self).items().insert(
                insert_position(old(self).items(), time),
                (time, item),
            ),
            final(self).items().len() == old(self).items().len() + 1,
            final(self).items().contains((time, item)),
            forall|e: (u64, T)| old(self).items().contains(e) ==> final(self).items().contains(e),
            forall|j: int|
                0 <= j < final(self).items().len() ==> (final(self).items()[j] == (time, item)
                    || old(self).items().contains(final(self).items()[j])),
    {
        let ghost s = self.queue@;
        proof {
            assert(s == old(self).items());
            assert forall|a: int, b: int| 0 <= a < b < s.len() implies s[a].0 <= s[b].0 by {
                assert(old(self).items()[a].0 <= old(self).items()[b].0);
            }
        }
        let mut i: usize = 0;
        while i < self.queue.len() && self.queue[i].0 <= time
            invariant
                i <= s.len(),
                self.queue@ == s,
                forall|a: int, b: int| 0 <= a < b < s.len() ==> s[a].0 <= s[b].0,
                forall|j: int| 0 <= j < i ==> s[j].0 <= time,
            decreases s.len() - i,
        {
            i = i + 1;
        }
        proof {
            assert forall|j: int| i <= j < s.len() implies s[j].0 > time by {
                assert(s[i as int].0 > time);
                if j > i {
                    assert(s[i as int].0 <= s[j].0);
                }
            }
        }
        self.queue.insert(i, (time, item));
        proof {
            lemma_insert_position_is(s, time, i as int);
            s.insert_ensures(i as int, (time, item));
            let s2 = self.queue@;
            let ii = i as int;
            assert forall|e: (u64, T)| s.contains(e) implies s2.contains(e) by {
                let k = choose|k: int| 0 <= k < s.len() && s[k] == e;
                if k < ii {
                    assert(s2[k] == e);
                } else {
                    assert(s2[k + 1] == e);
                }
            }
            assert forall|j: int|
                0 <= j < s2.len() implies (s2[j] == (time, item) || s.contains(s2[j])) by {
                if j < ii {
                    assert(s2[j] == s[j]);
                } else if j > ii {
                    assert(s2[j] == s[j - 1]);
                }
            }
            assert(s2.contains((time, item))) by {
                assert(s2[ii] == (time, item));
            }
            assert forall|a: int, b: int| 0 <= a < b < s2.len() implies s2[a].0 <= s2[b].0 by {
                if b < ii {
                    assert(s2[a] == s[a] && s2[b] == s[b]);
                } else if a > ii {
                    assert(s2[a] == s[a - 1] && s2[b] == s[b - 1]);
                } else if a < ii && b == ii {
                    assert(s2[a] == s[a] && s2[b] == (time, item));
                } else if a == ii && b > ii {
                    assert(s2[a] == (time, item) && s2[b] == s[b - 1]);
                } else if a < ii && b > ii {
                    assert(s2[a] == s[a] && s2[b] == s[b - 1]);
                }
            }
        }
    }

    /// The earliest pending deadline, used to arm the next timer wait.
    pub fn next_timeout(&self) -> (r: Option<u64>)
        requires
            self.wf(),
        ensures
            r is Some <==> self.items().len() > 0,
            r is Some ==> r.unwrap() == self.items()[0].0,
            r is Some ==> forall|j: int|
                0 <= j < self.items().len() ==> r.unwrap() <= self.items()[j].0,
    {
        if self.queue.len() > 0 {
            Some(self.queue[0].0)
        } else {
            None
        }
    }

    /// Pop a single due entry, if any: the earliest entry, when its deadline
    /// has passed at `now`.
    pub fn pop_completed(&mut self, now: u64) -> (r: Option<T>)
        requires
            old(self).wf(),
        ensures
            final(self).wf(),
            old(self).items().len() > 0 && old(self).items()[0].0 <= now ==> {
                &&& r == Some(old(self).items()[0].1)
                &&& final(self).items() == old(self).items().remove(0)
            },
            !(old(self).items().len() > 0 && old(self).items()[0].0 <= now) ==> {
                &&& r is None
                &&& final(self).items() == old(self).items()
            },
    {
        if self.queue.len() > 0 {
            if self.queue[0].0 <= now {
                let ghost s = self.queue@;
                let e = self.queue.remove(0);
                proof {
                    s.remove_ensures(0);
                }
                return Some(e.1);
            }
        }
        None
    }
}

} // verus!
