//! The broadcast hub: an in-memory registry of topic -> fan-out group,
//! with per-identity connection admission control and idle-topic reaping.
//!
//! Every subscriber owns a bounded buffer of undelivered events.  A
//! publish appends to the buffer of every current subscriber of the
//! topic; once a buffer is full the oldest undelivered event is dropped
//! for that subscriber only.  Delivery is therefore at-most-once and
//! order-preserving per subscriber, with silent loss under backpressure.
//!
//! The hub is an explicitly owned service object: callers that share it
//! across tasks wrap it in their own lock.

use std::collections::VecDeque;
use vstd::prelude::*;

use crate::event::Event;

verus! {

/// Per-identity bookkeeping: how many subscriptions the identity has
/// open right now, and when it was last seen connecting or leaving.
pub struct ConnectionInfo {
    pub connection_count: usize,
    pub last_activity: u64,
}

/// One live connection: bound to a single topic for its whole lifetime,
/// with its own bounded buffer of undelivered events.
pub struct Subscriber {
    pub id: u64,
    pub identity: String,
    pub queue: VecDeque<Event>,
}

/// A named broadcast group, created lazily on first subscription and
/// removed by `reap` once no subscriber is left.
pub struct Topic {
    pub name: String,
    pub subs: Vec<Subscriber>,
}

/// The topic registry and the connection-budget table.
pub struct Hub {
    pub topics: Vec<Topic>,
    pub budgets: Vec<(String, ConnectionInfo)>,
    /// Most concurrently open subscriptions one identity may hold.
    pub cap: usize,
    /// Most undelivered events buffered for one subscriber.
    pub capacity: usize,
    pub next_sub: u64,
}

/// What a bounded buffer holds after an event is appended: the event
/// goes at the back, and when the buffer is already at `cap` the oldest
/// entry is dropped to make room.
pub open spec fn spec_push_bounded(q: Seq<Event>, e: Event, cap: nat) -> Seq<Event> {
    if q.len() < cap {
        q.push(e)
    } else {
        q.subrange(q.len() - cap + 1, q.len() as int).push(e)
    }
}

impl Hub {
    /// Distinct topic names, distinct subscriber ids, distinct budget
    /// identities; budget entries live in `1 ..= cap` (an entry is
    /// removed when its count reaches zero); buffers never exceed
    /// `capacity`; handed-out subscriber ids stay below `next_sub`.
    pub open spec fn wf(self) -> bool {
        &&& self.cap >= 1
        &&& self.capacity >= 1
        &&& forall|i: int, j: int|
            0 <= i < j < self.topics@.len() ==> self.topics@[i].name@ != self.topics@[j].name@
        &&& forall|i: int, j: int|
            0 <= i < j < self.budgets@.len() ==> self.budgets@[i].0@ != self.budgets@[j].0@
        &&& forall|i: int|
            0 <= i < self.budgets@.len() ==> 1 <= #[trigger] self.budgets@[i].1.connection_count
                <= self.cap
        &&& forall|i: int, s: int, t: int|
            0 <= i < self.topics@.len() && 0 <= s < t < self.topics@[i].subs@.len()
                ==> self.topics@[i].subs@[s].id != self.topics@[i].subs@[t].id
        &&& forall|i: int, s: int|
            0 <= i < self.topics@.len() && 0 <= s < self.topics@[i].subs@.len()
                ==> #[trigger] self.topics@[i].subs@[s].id < self.next_sub
        &&& forall|i: int, s: int|
            0 <= i < self.topics@.len() && 0 <= s < self.topics@[i].subs@.len()
                ==> #[trigger] self.topics@[i].subs@[s].queue@.len() <= self.capacity
    }

    /// Whether a topic of this name is registered.
    pub open spec fn has_topic(self, name: Seq<char>) -> bool {
        exists|i: int| 0 <= i < self.topics@.len() && #[trigger] self.topics@[i].name@ == name
    }

    /// The registry index of the topic of this name.
    pub open spec fn topic_idx(self, name: Seq<char>) -> int {
        choose|i: int| 0 <= i < self.topics@.len() && #[trigger] self.topics@[i].name@ == name
    }

    /// The (id, identity) pairs of the topic's subscribers, in
    /// subscription order; `None` when the topic is not registered.
    pub open spec fn subs_of(self, name: Seq<char>) -> Option<Seq<(u64, Seq<char>)>> {
        if self.has_topic(name) {
            Some(
                self.topics@[self.topic_idx(name)].subs@.map_values(
                    |s: Subscriber| (s.id, s.identity@),
                ),
            )
        } else {
            None
        }
    }

    /// Whether the topic has a subscriber with this id.
    pub open spec fn has_sub(self, name: Seq<char>, sid: u64) -> bool {
        &&& self.has_topic(name)
        &&& exists|s: int|
            0 <= s < self.topics@[self.topic_idx(name)].subs@.len()
                && #[trigger] self.topics@[self.topic_idx(name)].subs@[s].id == sid
    }

    /// The position of subscriber `sid` within its topic.
    pub open spec fn sub_idx(self, name: Seq<char>, sid: u64) -> int {
        choose|s: int|
            0 <= s < self.topics@[self.topic_idx(name)].subs@.len()
                && #[trigger] self.topics@[self.topic_idx(name)].subs@[s].id == sid
    }

    /// The undelivered events buffered for subscriber `sid` of the
    /// topic, oldest first; `None` when there is no such subscriber.
    pub open spec fn queue_of(self, name: Seq<char>, sid: u64) -> Option<Seq<Event>> {
        if self.has_sub(name, sid) {
            Some(self.topics@[self.topic_idx(name)].subs@[self.sub_idx(name, sid)].queue@)
        } else {
            None
        }
    }

    /// How many subscriptions the identity has open; identities without
    /// an entry hold zero.
    pub open spec fn budget_of(self, identity: Seq<char>) -> nat {
        if exists|i: int|
            0 <= i < self.budgets@.len() && #[trigger] self.budgets@[i].0@ == identity {
            let i = choose|i: int|
                0 <= i < self.budgets@.len() && #[trigger] self.budgets@[i].0@ == identity;
            self.budgets@[i].1.connection_count as nat
        } else {
            0
        }
    }

    /// With distinct identities, the budget of the identity at entry
    /// `at` is that entry's count.
    proof fn lemma_budget_at(self, at: int)
        requires
            forall|i: int, j: int|
                0 <= i < j < self.budgets@.len() ==> self.budgets@[i].0@ != self.budgets@[j].0@,
            0 <= at < self.budgets@.len(),
        ensures
            self.budget_of(self.budgets@[at].0@)
                == self.budgets@[at].1.connection_count as nat,
    {
        let id = self.budgets@[at].0@;
        let k = choose|i: int|
            0 <= i < self.budgets@.len() && #[trigger] self.budgets@[i].0@ == id;
        if k != at {
            if k < at {
                assert(self.budgets@[k].0@ != self.budgets@[at].0@);
            } else {
                assert(self.budgets@[at].0@ != self.budgets@[k].0@);
            }
        }
    }

    /// Entries at the same positions of two distinct-keyed budget
    /// tables that differ only at `at` give every other identity the
    /// same budget.
    proof fn lemma_budget_frame(pre: Hub, post: Hub, at: int)
        requires
            forall|i: int, j: int|
                0 <= i < j < pre.budgets@.len() ==> pre.budgets@[i].0@ != pre.budgets@[j].0@,
            0 <= at < pre.budgets@.len(),
            post.budgets@.len() == pre.budgets@.len(),
            forall|j: int|
                0 <= j < pre.budgets@.len() ==> post.budgets@[j].0@ == pre.budgets@[j].0@,
            forall|j: int|
                0 <= j < pre.budgets@.len() && j != at ==> post.budgets@[j].1
                    == pre.budgets@[j].1,
        ensures
            forall|id: Seq<char>|
                id != pre.budgets@[at].0@ ==> post.budget_of(id) == pre.budget_of(id),
    {
        assert forall|id: Seq<char>| id != pre.budgets@[at].0@ implies post.budget_of(id)
            == pre.budget_of(id) by {
            if exists|i: int| 0 <= i < pre.budgets@.len() && #[trigger] pre.budgets@[i].0@ == id {
                let i = choose|i: int|
                    0 <= i < pre.budgets@.len() && #[trigger] pre.budgets@[i].0@ == id;
                assert(post.budgets@[i].0@ == id);
                let k = choose|k: int|
                    0 <= k < post.budgets@.len() && #[trigger] post.budgets@[k].0@ == id;
                assert(pre.budgets@[k].0@ == id);
                if k != i {
                    if k < i {
                        assert(pre.budgets@[k].0@ != pre.budgets@[i].0@);
                    } else {
                        assert(pre.budgets@[i].0@ != pre.budgets@[k].0@);
                    }
                }
                assert(k == i && i != at);
            } else {
                assert(forall|k: int|
                    0 <= k < post.budgets@.len() ==> #[trigger] post.budgets@[k].0@ != id);
            }
        }
    }

    /// An empty hub with the given admission cap and buffer bound.
    pub fn with_limits(cap: usize, capacity: usize) -> (h: Hub)
        requires
            cap >= 1,
            capacity >= 1,
        ensures
            h.wf(),
            h.cap == cap,
            h.capacity == capacity,
            h.topics@.len() == 0,
            h.budgets@.len() == 0,
            forall|id: Seq<char>| h.budget_of(id) == 0,
            forall|n: Seq<char>| !h.has_topic(n),
    {
        Hub { topics: Vec::new(), budgets: Vec::new(), cap, capacity, next_sub: 0 }
    }

    /// An empty hub with the default limits: five connections per
    /// identity, one hundred buffered events per subscriber.
    pub fn new() -> (h: Hub)
        ensures
            h.wf(),
            h.cap == 5,
            h.capacity == 100,
            h.topics@.len() == 0,
            h.budgets@.len() == 0,
            forall|id: Seq<char>| h.budget_of(id) == 0,
            forall|n: Seq<char>| !h.has_topic(n),
    {
        Hub::with_limits(5, 100)
    }

    /// Admission control: refuses the connection when the identity is
    /// already at its cap, otherwise counts it.  Nothing but this
    /// identity's budget changes, and a refusal changes nothing.
    #[verifier::loop_isolation(false)]
    pub fn track_connection(&mut self, identity: &String, now: u64) -> (r: bool)
        requires
            old(self).wf(),
        ensures
            final(self).wf(),
            r == (old(self).budget_of(identity@) < old(self).cap),
            r ==> final(self).budget_of(identity@) == old(self).budget_of(identity@) + 1,
            !r ==> final(self).budget_of(identity@) == old(self).budget_of(identity@),
            forall|id: Seq<char>|
                id != identity@ ==> final(self).budget_of(id) == old(self).budget_of(id),
            final(self).topics == old(self).topics,
            final(self).cap == old(self).cap,
            final(self).capacity == old(self).capacity,
            final(self).next_sub == old(self).next_sub,
    {
        let ghost pre = *self;
        let n = self.budgets.len();
        let mut i: usize = 0;
        while i < n
            invariant
                *self == pre,
                n == self.budgets@.len(),
                i <= n,
                forall|j: int| 0 <= j < i ==> self.budgets@[j].0@ != identity@,
            decreases n - i,
        {
            if self.budgets[i].0 == *identity {
                proof {
                    pre.lemma_budget_at(i as int);
                }
                if self.budgets[i].1.connection_count >= self.cap {
                    return false;
                }
                let c = self.budgets[i].1.connection_count;
                self.budgets[i].1 = ConnectionInfo { connection_count: c + 1, last_activity: now };
                proof {
                    self.lemma_budget_at(i as int);
                    Hub::lemma_budget_frame(pre, *self, i as int);
                }
                return true;
            }
            i += 1;
        }
        proof {
            assert(pre.budget_of(identity@) == 0);
        }
        self.budgets.push(
            (identity.clone(), ConnectionInfo { connection_count: 1, last_activity: now }),
        );
        proof {
            assert(self.budgets@[n as int].0@ == identity@);
            self.lemma_budget_at(n as int);
            assert forall|id: Seq<char>| id != identity@ implies self.budget_of(id)
                == pre.budget_of(id) by {
                if exists|k: int|
                    0 <= k < self.budgets@.len() && #[trigger] self.budgets@[k].0@ == id {
                    let k = choose|k: int|
                        0 <= k < self.budgets@.len() && #[trigger] self.budgets@[k].0@ == id;
                    assert(k < n);
                    assert(pre.budgets@[k].0@ == id);
                } else {
                    assert forall|k: int|
                        0 <= k < pre.budgets@.len() implies #[trigger] pre.budgets@[k].0@
                        != id by {
                        assert(self.budgets@[k] == pre.budgets@[k]);
                        assert(self.budgets@[k].0@ != id);
                    }
                }
            }
        }
        true
    }

    /// Tears one subscription of the identity down: decrements the
    /// budget, removing the entry entirely when it reaches zero.  A
    /// budget never goes negative; an unknown identity stays at zero.
    #[verifier::loop_isolation(false)]
    pub fn untrack_connection(&mut self, identity: &String, now: u64)
        requires
            old(self).wf(),
        ensures
            final(self).wf(),
            final(self).budget_of(identity@) == if old(self).budget_of(identity@) > 0 {
                (old(self).budget_of(identity@) - 1) as nat
            } else {
                0nat
            },
            forall|id: Seq<char>|
                id != identity@ ==> final(self).budget_of(id) == old(self).budget_of(id),
            final(self).topics == old(self).topics,
            final(self).cap == old(self).cap,
            final(self).capacity == old(self).capacity,
            final(self).next_sub == old(self).next_sub,
    {
        let ghost pre = *self;
        let n = self.budgets.len();
        let mut i: usize = 0;
        while i < n
            invariant
                *self == pre,
                n == self.budgets@.len(),
                i <= n,
                forall|j: int| 0 <= j < i ==> self.budgets@[j].0@ != identity@,
            decreases n - i,
        {
            if self.budgets[i].0 == *identity {
                proof {
                    pre.lemma_budget_at(i as int);
                }
                let c = self.budgets[i].1.connection_count;
                if c <= 1 {
                    self.budgets.remove(i);
                    proof {
                        assert forall|id: Seq<char>| id != identity@ implies self.budget_of(id)
                            == pre.budget_of(id) by {
                            Hub::lemma_budget_remove(pre, *self, i as int, id);
                        }
                        assert forall|k: int|
                            0 <= k < self.budgets@.len() implies #[trigger] self.budgets@[k].0@
                            != identity@ by {
                            if k < i {
                                assert(self.budgets@[k] == pre.budgets@[k]);
                            } else {
                                assert(self.budgets@[k] == pre.budgets@[k + 1]);
                                assert(pre.budgets@[i as int].0@ != pre.budgets@[k + 1].0@);
                            }
                        }
                        assert(self.budget_of(identity@) == 0);
                        assert forall|x: int, y: int|
                            0 <= x < y < self.budgets@.len() implies self.budgets@[x].0@
                            != self.budgets@[y].0@ by {
                            let px: int = if x < i { x } else { x + 1 };
                            let py: int = if y < i { y } else { y + 1 };
                            assert(self.budgets@[x] == pre.budgets@[px]);
                            assert(self.budgets@[y] == pre.budgets@[py]);
                        }
                        assert forall|x: int|
                            0 <= x < self.budgets@.len() implies 1
                            <= #[trigger] self.budgets@[x].1.connection_count <= self.cap by {
                            let px: int = if x < i { x } else { x + 1 };
                            assert(self.budgets@[x] == pre.budgets@[px]);
                        }
                    }
                } else {
                    self.budgets[i].1 = ConnectionInfo {
                        connection_count: c - 1,
                        last_activity: now,
                    };
                    proof {
                        self.lemma_budget_at(i as int);
                        Hub::lemma_budget_frame(pre, *self, i as int);
                    }
                }
                return ;
            }
            i += 1;
        }
        proof {
            assert(pre.budget_of(identity@) == 0);
        }
    }

    /// Removing entry `at` leaves every identity other than its own
    /// with an unchanged budget.
    proof fn lemma_budget_remove(pre: Hub, post: Hub, at: int, id: Seq<char>)
        requires
            forall|i: int, j: int|
                0 <= i < j < pre.budgets@.len() ==> pre.budgets@[i].0@ != pre.budgets@[j].0@,
            0 <= at < pre.budgets@.len(),
            post.budgets@ == pre.budgets@.remove(at),
            id != pre.budgets@[at].0@,
        ensures
            post.budget_of(id) == pre.budget_of(id),
    {
        if exists|i: int| 0 <= i < pre.budgets@.len() && #[trigger] pre.budgets@[i].0@ == id {
            let i = choose|i: int|
                0 <= i < pre.budgets@.len() && #[trigger] pre.budgets@[i].0@ == id;
            let j = if i < at {
                i
            } else {
                i - 1
            };
            assert(post.budgets@[j].0@ == id);
            let k = choose|k: int|
                0 <= k < post.budgets@.len() && #[trigger] post.budgets@[k].0@ == id;
            let korig = if k < at {
                k
            } else {
                k + 1
            };
            assert(pre.budgets@[korig].0@ == id);
            if korig != i {
                if korig < i {
                    assert(pre.budgets@[korig].0@ != pre.budgets@[i].0@);
                } else {
                    assert(pre.budgets@[i].0@ != pre.budgets@[korig].0@);
                }
            }
        } else {
            assert forall|k: int| 0 <= k < post.budgets@.len() implies #[trigger] post.budgets@[k].0@
                != id by {
                if k < at {
                    assert(pre.budgets@[k].0@ != id);
                } else {
                    assert(pre.budgets@[k + 1].0@ != id);
                }
            }
        }
    }
    /// With distinct names, the topic at `at` is the one its name finds.
    proof fn lemma_topic_at(self, at: int)
        requires
            forall|i: int, j: int|
                0 <= i < j < self.topics@.len() ==> self.topics@[i].name@ != self.topics@[j].name@,
            0 <= at < self.topics@.len(),
        ensures
            self.has_topic(self.topics@[at].name@),
            self.topic_idx(self.topics@[at].name@) == at,
    {
        let name = self.topics@[at].name@;
        assert(self.has_topic(name));
        let k = self.topic_idx(name);
        if k != at {
            if k < at {
                assert(self.topics@[k].name@ != self.topics@[at].name@);
            } else {
                assert(self.topics@[at].name@ != self.topics@[k].name@);
            }
        }
    }

    /// Within topic `ti`, the subscriber at `s` is the one its id finds.
    proof fn lemma_sub_at(self, ti: int, s: int)
        requires
            self.wf(),
            0 <= ti < self.topics@.len(),
            self.topic_idx(self.topics@[ti].name@) == ti,
            0 <= s < self.topics@[ti].subs@.len(),
        ensures
            self.has_sub(self.topics@[ti].name@, self.topics@[ti].subs@[s].id),
            self.sub_idx(self.topics@[ti].name@, self.topics@[ti].subs@[s].id) == s,
            self.queue_of(self.topics@[ti].name@, self.topics@[ti].subs@[s].id)
                == Some(self.topics@[ti].subs@[s].queue@),
    {
        let name = self.topics@[ti].name@;
        let sid = self.topics@[ti].subs@[s].id;
        assert(self.has_sub(name, sid));
        let k = self.sub_idx(name, sid);
        if k != s {
            if k < s {
                assert(self.topics@[ti].subs@[k].id != self.topics@[ti].subs@[s].id);
            } else {
                assert(self.topics@[ti].subs@[s].id != self.topics@[ti].subs@[k].id);
            }
        }
    }

    /// Two distinct-named registries that agree at every position but
    /// `at` — whose name they share — look the same under every other
    /// name.
    proof fn lemma_topic_frame(pre: Hub, post: Hub, at: int)
        requires
            forall|i: int, j: int|
                0 <= i < j < pre.topics@.len() ==> pre.topics@[i].name@ != pre.topics@[j].name@,
            0 <= at < pre.topics@.len(),
            post.topics@.len() == pre.topics@.len(),
            forall|j: int| 0 <= j < pre.topics@.len() ==> post.topics@[j].name@
                == pre.topics@[j].name@,
            forall|j: int|
                0 <= j < pre.topics@.len() && j != at ==> post.topics@[j] == pre.topics@[j],
        ensures
            forall|n: Seq<char>|
                n != pre.topics@[at].name@ ==> post.subs_of(n) == pre.subs_of(n),
            forall|n: Seq<char>, sid: u64|
                n != pre.topics@[at].name@ ==> post.queue_of(n, sid) == pre.queue_of(n, sid),
    {
        assert forall|n: Seq<char>| n != pre.topics@[at].name@ implies post.subs_of(n)
            == pre.subs_of(n) by {
            Hub::lemma_topic_frame_one(pre, post, at, n);
        }
        assert forall|n: Seq<char>, sid: u64| n != pre.topics@[at].name@ implies post.queue_of(
            n,
            sid,
        ) == pre.queue_of(n, sid) by {
            Hub::lemma_topic_frame_one(pre, post, at, n);
        }
    }

    /// One name's worth of `lemma_topic_frame`.
    proof fn lemma_topic_frame_one(pre: Hub, post: Hub, at: int, n: Seq<char>)
        requires
            forall|i: int, j: int|
                0 <= i < j < pre.topics@.len() ==> pre.topics@[i].name@ != pre.topics@[j].name@,
            0 <= at < pre.topics@.len(),
            post.topics@.len() == pre.topics@.len(),
            forall|j: int| 0 <= j < pre.topics@.len() ==> post.topics@[j].name@
                == pre.topics@[j].name@,
            forall|j: int|
                0 <= j < pre.topics@.len() && j != at ==> post.topics@[j] == pre.topics@[j],
            n != pre.topics@[at].name@,
        ensures
            post.subs_of(n) == pre.subs_of(n),
            forall|sid: u64| post.queue_of(n, sid) == pre.queue_of(n, sid),
    {
        if pre.has_topic(n) {
            let i = pre.topic_idx(n);
            assert(post.topics@[i].name@ == n);
            assert(post.has_topic(n));
            let k = post.topic_idx(n);
            assert(pre.topics@[k].name@ == n);
            if k != i {
                if k < i {
                    assert(pre.topics@[k].name@ != pre.topics@[i].name@);
                } else {
                    assert(pre.topics@[i].name@ != pre.topics@[k].name@);
                }
            }
            assert(k == i && i != at);
            assert(post.topics@[i] == pre.topics@[i]);
            assert(post.subs_of(n) == pre.subs_of(n));
            assert forall|sid: u64| post.queue_of(n, sid) == pre.queue_of(n, sid) by {
                assert(post.has_sub(n, sid) == pre.has_sub(n, sid));
                if pre.has_sub(n, sid) {
                    assert(post.sub_idx(n, sid) == pre.sub_idx(n, sid));
                }
            }
        } else {
            assert forall|k: int| 0 <= k < post.topics@.len() implies #[trigger] post.topics@[k].name@
                != n by {
                assert(pre.topics@[k].name@ != n);
            }
            assert(!post.has_topic(n));
        }
    }

    /// Finds the registry index of a topic by name.
    #[verifier::loop_isolation(false)]
    fn find_topic(&self, name: &String) -> (r: Option<usize>)
        ensures
            match r {
                Some(i) => i < self.topics@.len() && self.topics@[i as int].name@ == name@,
                None => !self.has_topic(name@),
            },
    {
        let n = self.topics.len();
        let mut i: usize = 0;
        while i < n
            invariant
                i <= n,
                forall|j: int| 0 <= j < i ==> self.topics@[j].name@ != name@,
            decreases n - i,
        {
            if self.topics[i].name == *name {
                return Some(i);
            }
            i += 1;
        }
        None
    }

    /// Finds the position of a subscriber by id within topic `ti`.
    #[verifier::loop_isolation(false)]
    fn find_sub(&self, ti: usize, sid: u64) -> (r: Option<usize>)
        requires
            ti < self.topics@.len(),
        ensures
            match r {
                Some(s) => s < self.topics@[ti as int].subs@.len()
                    && self.topics@[ti as int].subs@[s as int].id == sid,
                None => forall|s: int|
                    0 <= s < self.topics@[ti as int].subs@.len()
                        ==> self.topics@[ti as int].subs@[s].id != sid,
            },
    {
        let n = self.topics[ti].subs.len();
        let mut s: usize = 0;
        while s < n
            invariant
                s <= n,
                forall|j: int| 0 <= j < s ==> self.topics@[ti as int].subs@[j].id != sid,
            decreases n - s,
        {
            if self.topics[ti].subs[s].id == sid {
                return Some(s);
            }
            s += 1;
        }
        None
    }

    /// Whether a topic of this name is currently registered.
    pub fn contains_topic(&self, name: &String) -> (r: bool)
        requires
            self.wf(),
        ensures
            r == self.has_topic(name@),
    {
        self.find_topic(name).is_some()
    }

    /// How many subscribers the topic has; an unregistered topic has
    /// none.
    pub fn subscriber_count(&self, name: &String) -> (r: usize)
        requires
            self.wf(),
        ensures
            r == match self.subs_of(name@) {
                Some(s) => s.len(),
                None => 0nat,
            },
    {
        match self.find_topic(name) {
            Some(ti) => {
                proof {
                    self.lemma_topic_at(ti as int);
                }
                self.topics[ti].subs.len()
            },
            None => 0,
        }
    }

    /// Subscribes an identity to the topic, creating the topic on first
    /// use: returns the fresh subscriber id, whose buffer starts empty.
    /// Concurrent creation has a single winner because the caller
    /// serializes mutation; every other topic, subscriber and budget is
    /// untouched.
    pub fn subscribe(&mut self, topic: &String, identity: &String) -> (sid: u64)
        requires
            old(self).wf(),
            old(self).next_sub < u64::MAX,
        ensures
            final(self).wf(),
            sid == old(self).next_sub,
            final(self).next_sub == old(self).next_sub + 1,
            final(self).queue_of(topic@, sid) == Some(Seq::<Event>::empty()),
            final(self).subs_of(topic@) == Some(
                match old(self).subs_of(topic@) {
                    Some(s) => s.push((sid, identity@)),
                    None => seq![(sid, identity@)],
                },
            ),
            forall|n: Seq<char>| n != topic@ ==> final(self).subs_of(n) == old(self).subs_of(n),
            forall|n: Seq<char>, other: u64|
                n != topic@ ==> final(self).queue_of(n, other) == old(self).queue_of(n, other),
            forall|other: u64|
                other != sid ==> final(self).queue_of(topic@, other) == old(self).queue_of(
                    topic@,
                    other,
                ),
            final(self).budgets == old(self).budgets,
            final(self).cap == old(self).cap,
            final(self).capacity == old(self).capacity,
    {
        let ghost pre = *self;
        let sid = self.next_sub;
        self.next_sub = sid + 1;
        let sub = Subscriber { id: sid, identity: identity.clone(), queue: VecDeque::new() };
        match self.find_topic(topic) {
            Some(ti) => {
                proof {
                    pre.lemma_topic_at(ti as int);
                }
                self.topics[ti].subs.push(sub);
                proof {
                    self.lemma_subscribe_existing(pre, ti as int, topic@, identity@);
                }
                sid
            },
            None => {
                let t = Topic { name: topic.clone(), subs: Vec::new() };
                self.topics.push(t);
                let ti = self.topics.len() - 1;
                self.topics[ti].subs.push(sub);
                proof {
                    self.lemma_subscribe_fresh(pre, topic@, identity@);
                }
                sid
            },
        }
    }

    /// After pushing a fresh subscriber onto existing topic `ti`, the
    /// hub is well formed and only that topic's subscriber list grew.
    proof fn lemma_subscribe_existing(self, pre: Hub, ti: int, name: Seq<char>, identity: Seq<char>)
        requires
            pre.wf(),
            pre.next_sub < u64::MAX,
            0 <= ti < pre.topics@.len(),
            pre.topics@[ti].name@ == name,
            pre.topic_idx(name) == ti,
            self.cap == pre.cap,
            self.capacity == pre.capacity,
            self.budgets == pre.budgets,
            self.next_sub == pre.next_sub + 1,
            self.topics@.len() == pre.topics@.len(),
            forall|j: int| 0 <= j < pre.topics@.len() && j != ti ==> self.topics@[j]
                == pre.topics@[j],
            self.topics@[ti].name == pre.topics@[ti].name,
            self.topics@[ti].subs@.len() == pre.topics@[ti].subs@.len() + 1,
            forall|s: int| 0 <= s < pre.topics@[ti].subs@.len() ==> self.topics@[ti].subs@[s]
                == pre.topics@[ti].subs@[s],
            self.topics@[ti].subs@.last().id == pre.next_sub,
            self.topics@[ti].subs@.last().identity@ == identity,
            self.topics@[ti].subs@.last().queue@.len() == 0,
        ensures
            self.wf(),
            self.queue_of(name, pre.next_sub) == Some(Seq::<Event>::empty()),
            self.subs_of(name) == Some(
                match pre.subs_of(name) {
                    Some(s) => s.push((pre.next_sub, identity)),
                    None => seq![(pre.next_sub, identity)],
                },
            ),
            forall|n: Seq<char>| n != name ==> self.subs_of(n) == pre.subs_of(n),
            forall|n: Seq<char>, other: u64|
                n != name ==> self.queue_of(n, other) == pre.queue_of(n, other),
            forall|other: u64|
                other != pre.next_sub ==> self.queue_of(name, other) == pre.queue_of(name, other),
    {
        let m = pre.topics@[ti].subs@.len() as int;
        assert(self.wf());
        self.lemma_topic_at(ti);
        assert(self.topic_idx(name) == ti);
        self.lemma_sub_at(ti, m);
        assert(self.queue_of(name, pre.next_sub) =~= Some(Seq::<Event>::empty()));
        assert(self.subs_of(name).unwrap() =~= pre.subs_of(name).unwrap().push(
            (pre.next_sub, identity),
        ));
        Hub::lemma_topic_frame(pre, self, ti);
        assert forall|other: u64| other != pre.next_sub implies self.queue_of(name, other)
            == pre.queue_of(name, other) by {
            if pre.has_sub(name, other) {
                let s = pre.sub_idx(name, other);
                pre.lemma_sub_at(ti, s);
                self.lemma_sub_at(ti, s);
            } else {
                if self.has_sub(name, other) {
                    let s = self.sub_idx(name, other);
                    assert(0 <= s < self.topics@[ti].subs@.len());
                    assert(self.topics@[ti].subs@[s].id == other);
                    assert(s != m);
                    assert(pre.topics@[ti].subs@[s].id == other);
                    assert(pre.has_sub(name, other));
                }
            }
        }
    }

    /// After appending a fresh topic holding one fresh subscriber, the
    /// hub is well formed and every other name reads as before.
    proof fn lemma_subscribe_fresh(self, pre: Hub, name: Seq<char>, identity: Seq<char>)
        requires
            pre.wf(),
            pre.next_sub < u64::MAX,
            !pre.has_topic(name),
            self.cap == pre.cap,
            self.capacity == pre.capacity,
            self.budgets == pre.budgets,
            self.next_sub == pre.next_sub + 1,
            self.topics@.len() == pre.topics@.len() + 1,
            forall|j: int| 0 <= j < pre.topics@.len() ==> self.topics@[j] == pre.topics@[j],
            self.topics@.last().name@ == name,
            self.topics@.last().subs@.len() == 1,
            self.topics@.last().subs@[0].id == pre.next_sub,
            self.topics@.last().subs@[0].identity@ == identity,
            self.topics@.last().subs@[0].queue@.len() == 0,
        ensures
            self.wf(),
            self.queue_of(name, pre.next_sub) == Some(Seq::<Event>::empty()),
            self.subs_of(name) == Some(
                match pre.subs_of(name) {
                    Some(s) => s.push((pre.next_sub, identity)),
                    None => seq![(pre.next_sub, identity)],
                },
            ),
            forall|n: Seq<char>| n != name ==> self.subs_of(n) == pre.subs_of(n),
            forall|n: Seq<char>, other: u64|
                n != name ==> self.queue_of(n, other) == pre.queue_of(n, other),
            forall|other: u64|
                other != pre.next_sub ==> self.queue_of(name, other) == pre.queue_of(name, other),
    {
        let at = pre.topics@.len() as int;
        assert forall|i: int, j: int|
            0 <= i < j < self.topics@.len() implies self.topics@[i].name@
            != self.topics@[j].name@ by {
            if j == at {
                assert(pre.topics@[i].name@ != name);
            }
        }
        assert(self.wf());
        self.lemma_topic_at(at);
        self.lemma_sub_at(at, 0);
        assert(self.queue_of(name, pre.next_sub) =~= Some(Seq::<Event>::empty()));
        assert(self.subs_of(name).unwrap() =~= seq![(pre.next_sub, identity)]);
        assert forall|n: Seq<char>| n != name implies self.subs_of(n) == pre.subs_of(n) by {
            Hub::lemma_append_frame_one(pre, self, n);
        }
        assert forall|n: Seq<char>, other: u64| n != name implies self.queue_of(n, other)
            == pre.queue_of(n, other) by {
            Hub::lemma_append_frame_one(pre, self, n);
        }
        assert forall|other: u64| other != pre.next_sub implies self.queue_of(name, other)
            == pre.queue_of(name, other) by {
            if self.has_sub(name, other) {
                let s = self.sub_idx(name, other);
                assert(0 <= s < 1);
                assert(self.topics@[at].subs@[0].id == pre.next_sub);
                assert(false);
            }
            assert(!pre.has_topic(name));
            assert(!pre.has_sub(name, other));
        }
    }

    /// Appending a topic of a fresh name leaves every other name's
    /// subscribers and buffers as they were.
    proof fn lemma_append_frame_one(pre: Hub, post: Hub, n: Seq<char>)
        requires
            forall|i: int, j: int|
                0 <= i < j < pre.topics@.len() ==> pre.topics@[i].name@ != pre.topics@[j].name@,
            post.topics@.len() == pre.topics@.len() + 1,
            forall|j: int| 0 <= j < pre.topics@.len() ==> post.topics@[j] == pre.topics@[j],
            n != post.topics@.last().name@,
        ensures
            post.subs_of(n) == pre.subs_of(n),
            forall|sid: u64| post.queue_of(n, sid) == pre.queue_of(n, sid),
    {
        let at = pre.topics@.len() as int;
        if pre.has_topic(n) {
            let i = pre.topic_idx(n);
            pre.lemma_topic_at(i);
            assert(post.topics@[i].name@ == n);
            assert(post.has_topic(n));
            let k = post.topic_idx(n);
            if k != i {
                assert(k < at || k == at);
                if k == at {
                    assert(post.topics@[k].name@ != n);
                } else if k < i {
                    assert(pre.topics@[k].name@ != pre.topics@[i].name@);
                } else {
                    assert(pre.topics@[i].name@ != pre.topics@[k].name@);
                }
            }
            assert(k == i);
            assert(post.topics@[i] == pre.topics@[i]);
            assert forall|sid: u64| post.queue_of(n, sid) == pre.queue_of(n, sid) by {
                assert(post.has_sub(n, sid) == pre.has_sub(n, sid));
                if pre.has_sub(n, sid) {
                    assert(post.sub_idx(n, sid) == pre.sub_idx(n, sid));
                }
            }
        } else {
            assert forall|k: int| 0 <= k < post.topics@.len() implies #[trigger] post.topics@[k].name@
                != n by {
                if k < at {
                    assert(pre.topics@[k].name@ != n);
                }
            }
            assert(!post.has_topic(n));
        }
    }

    /// Appends the event to the buffer of every subscriber of the topic
    /// at registry position `ti`, dropping each full buffer's oldest
    /// entry.
    #[verifier::loop_isolation(false)]
    fn publish_at(&mut self, ti: usize, e: &Event)
        requires
            old(self).wf(),
            ti < old(self).topics@.len(),
        ensures
            final(self).wf(),
            final(self).topics@.len() == old(self).topics@.len(),
            forall|j: int|
                0 <= j < old(self).topics@.len() && j != ti ==> final(self).topics@[j] == old(
                    self,
                ).topics@[j],
            final(self).topics@[ti as int].name == old(self).topics@[ti as int].name,
            final(self).topics@[ti as int].subs@.len() == old(self).topics@[ti as int].subs@.len(),
            forall|t: int|
                0 <= t < old(self).topics@[ti as int].subs@.len() ==> {
                    &&& final(self).topics@[ti as int].subs@[t].id == old(self).topics@[
                        ti as int
                    ].subs@[t].id
                    &&& final(self).topics@[ti as int].subs@[t].identity == old(self).topics@[
                        ti as int
                    ].subs@[t].identity
                    &&& final(self).topics@[ti as int].subs@[t].queue@ == spec_push_bounded(
                        old(self).topics@[ti as int].subs@[t].queue@,
                        *e,
                        old(self).capacity as nat,
                    )
                },
            final(self).budgets == old(self).budgets,
            final(self).cap == old(self).cap,
            final(self).capacity == old(self).capacity,
            final(self).next_sub == old(self).next_sub,
    {
        let ghost pre = *self;
        let m = self.topics[ti].subs.len();
        let mut t: usize = 0;
        while t < m
            invariant
                ti < self.topics@.len(),
                t <= m,
                self.topics@.len() == pre.topics@.len(),
                forall|j: int|
                    0 <= j < pre.topics@.len() && j != ti ==> self.topics@[j] == pre.topics@[j],
                self.topics@[ti as int].name == pre.topics@[ti as int].name,
                m == pre.topics@[ti as int].subs@.len(),
                self.topics@[ti as int].subs@.len() == m,
                forall|x: int|
                    t <= x < m ==> self.topics@[ti as int].subs@[x] == pre.topics@[
                        ti as int
                    ].subs@[x],
                forall|x: int|
                    0 <= x < t ==> {
                        &&& self.topics@[ti as int].subs@[x].id == pre.topics@[ti as int].subs@[
                            x
                        ].id
                        &&& self.topics@[ti as int].subs@[x].identity == pre.topics@[
                            ti as int
                        ].subs@[x].identity
                        &&& self.topics@[ti as int].subs@[x].queue@ == spec_push_bounded(
                            pre.topics@[ti as int].subs@[x].queue@,
                            *e,
                            pre.capacity as nat,
                        )
                    },
                self.budgets == pre.budgets,
                self.cap == pre.cap,
                self.capacity == pre.capacity,
                self.next_sub == pre.next_sub,
            decreases m - t,
        {
            let ghost qpre = self.topics@[ti as int].subs@[t as int].queue@;
            proof {
                assert(self.topics@[ti as int].subs@[t as int] == pre.topics@[ti as int].subs@[
                    t as int
                ]);
                assert(pre.topics@[ti as int].subs@[t as int].queue@.len() <= pre.capacity);
            }
            if self.topics[ti].subs[t].queue.len() >= self.capacity {
                self.topics[ti].subs[t].queue.pop_front();
                proof {
                    assert(qpre.len() == pre.capacity);
                    assert(self.topics@[ti as int].subs@[t as int].queue@ =~= qpre.subrange(
                        1,
                        qpre.len() as int,
                    ));
                }
            }
            self.topics[ti].subs[t].queue.push_back(e.clone());
            proof {
                assert(self.topics@[ti as int].subs@[t as int].queue@ =~= spec_push_bounded(
                    qpre,
                    *e,
                    pre.capacity as nat,
                ));
            }
            t += 1;
        }
        proof {
            assert forall|i: int, j: int|
                0 <= i < j < self.topics@.len() implies self.topics@[i].name@
                != self.topics@[j].name@ by {
                assert(self.topics@[i].name@ == pre.topics@[i].name@);
                assert(self.topics@[j].name@ == pre.topics@[j].name@);
            }
            assert forall|i: int, s1: int, t1: int|
                0 <= i < self.topics@.len() && 0 <= s1 < t1 < self.topics@[i].subs@.len()
                    implies self.topics@[i].subs@[s1].id != self.topics@[i].subs@[t1].id by {
                if i == ti {
                    assert(self.topics@[i].subs@[s1].id == pre.topics@[i].subs@[s1].id);
                    assert(self.topics@[i].subs@[t1].id == pre.topics@[i].subs@[t1].id);
                    assert(pre.topics@[i].subs@[s1].id != pre.topics@[i].subs@[t1].id);
                } else {
                    assert(self.topics@[i] == pre.topics@[i]);
                }
            }
            assert forall|i: int, s1: int|
                0 <= i < self.topics@.len() && 0 <= s1 < self.topics@[i].subs@.len()
                    implies #[trigger] self.topics@[i].subs@[s1].id < self.next_sub by {
                if i == ti {
                    assert(self.topics@[i].subs@[s1].id == pre.topics@[i].subs@[s1].id);
                    assert(pre.topics@[i].subs@[s1].id < pre.next_sub);
                } else {
                    assert(self.topics@[i] == pre.topics@[i]);
                    assert(pre.topics@[i].subs@[s1].id < pre.next_sub);
                }
            }
            assert forall|i: int, ss: int|
                0 <= i < self.topics@.len() && 0 <= ss < self.topics@[i].subs@.len()
                    implies #[trigger] self.topics@[i].subs@[ss].queue@.len()
                <= self.capacity by {
                if i == ti {
                    let q0 = pre.topics@[i].subs@[ss].queue@;
                    assert(pre.topics@[i].subs@[ss].queue@.len() <= pre.capacity);
                    assert(self.topics@[i].subs@[ss].queue@ == spec_push_bounded(
                        q0,
                        *e,
                        pre.capacity as nat,
                    ));
                    if q0.len() < pre.capacity {
                        assert(self.topics@[i].subs@[ss].queue@.len() == q0.len() + 1);
                    } else {
                        assert(self.topics@[i].subs@[ss].queue@.len() == pre.capacity);
                    }
                } else {
                    assert(self.topics@[i] == pre.topics@[i]);
                    assert(pre.topics@[i].subs@[ss].queue@.len() <= pre.capacity);
                }
            }
        }
    }

    /// Best-effort fan-out: appends the message to the buffer of every
    /// current subscriber of the topic, in publish order, dropping a
    /// full subscriber's oldest undelivered message; subscribers of
    /// other topics, the registry and the budgets are untouched.
    /// Publishing to an unregistered topic delivers to nobody.
    pub fn publish(&mut self, topic: &String, e: &Event)
        requires
            old(self).wf(),
        ensures
            final(self).wf(),
            forall|sid: u64|
                old(self).has_sub(topic@, sid) ==> final(self).queue_of(topic@, sid) == Some(
                    spec_push_bounded(
                        old(self).queue_of(topic@, sid).unwrap(),
                        *e,
                        old(self).capacity as nat,
                    ),
                ),
            forall|sid: u64|
                !old(self).has_sub(topic@, sid) ==> final(self).queue_of(topic@, sid)
                    == None::<Seq<Event>>,
            forall|n: Seq<char>| final(self).subs_of(n) == old(self).subs_of(n),
            forall|n: Seq<char>, sid: u64|
                n != topic@ ==> final(self).queue_of(n, sid) == old(self).queue_of(n, sid),
            final(self).budgets == old(self).budgets,
            final(self).cap == old(self).cap,
            final(self).capacity == old(self).capacity,
            final(self).next_sub == old(self).next_sub,
    {
        let ghost pre = *self;
        match self.find_topic(topic) {
            None => {
                proof {
                    assert forall|sid: u64| !pre.has_sub(topic@, sid) by {}
                }
            },
            Some(ti) => {
                proof {
                    pre.lemma_topic_at(ti as int);
                }
                self.publish_at(ti, e);
                proof {
                    self.lemma_published(pre, ti as int, topic@, *e);
                }
            },
        }
    }

    /// Name-level reading of `publish_at`'s index-level contract.
    proof fn lemma_published(self, pre: Hub, ti: int, name: Seq<char>, e: Event)
        requires
            pre.wf(),
            self.wf(),
            0 <= ti < pre.topics@.len(),
            pre.topics@[ti].name@ == name,
            pre.topic_idx(name) == ti,
            self.topics@.len() == pre.topics@.len(),
            forall|j: int|
                0 <= j < pre.topics@.len() && j != ti ==> self.topics@[j] == pre.topics@[j],
            self.topics@[ti].name == pre.topics@[ti].name,
            self.topics@[ti].subs@.len() == pre.topics@[ti].subs@.len(),
            forall|t: int|
                0 <= t < pre.topics@[ti].subs@.len() ==> {
                    &&& self.topics@[ti].subs@[t].id == pre.topics@[ti].subs@[t].id
                    &&& self.topics@[ti].subs@[t].identity == pre.topics@[ti].subs@[t].identity
                    &&& self.topics@[ti].subs@[t].queue@ == spec_push_bounded(
                        pre.topics@[ti].subs@[t].queue@,
                        e,
                        pre.capacity as nat,
                    )
                },
        ensures
            forall|sid: u64|
                pre.has_sub(name, sid) ==> self.queue_of(name, sid) == Some(
                    spec_push_bounded(pre.queue_of(name, sid).unwrap(), e, pre.capacity as nat),
                ),
            forall|sid: u64|
                !pre.has_sub(name, sid) ==> self.queue_of(name, sid) == None::<Seq<Event>>,
            forall|n: Seq<char>| self.subs_of(n) == pre.subs_of(n),
            forall|n: Seq<char>, sid: u64|
                n != name ==> self.queue_of(n, sid) == pre.queue_of(n, sid),
    {
        self.lemma_topic_at(ti);
        assert forall|sid: u64| pre.has_sub(name, sid) implies self.queue_of(name, sid) == Some(
            spec_push_bounded(pre.queue_of(name, sid).unwrap(), e, pre.capacity as nat),
        ) by {
            let t = pre.sub_idx(name, sid);
            pre.lemma_sub_at(ti, t);
            self.lemma_sub_at(ti, t);
        }
        assert forall|sid: u64| !pre.has_sub(name, sid) implies self.queue_of(name, sid)
            == None::<Seq<Event>> by {
            if self.has_sub(name, sid) {
                let t = self.sub_idx(name, sid);
                assert(pre.topics@[ti].subs@[t].id == sid);
                assert(pre.has_sub(name, sid));
            }
        }
        assert(self.subs_of(name).unwrap() =~= pre.subs_of(name).unwrap());
        assert forall|n: Seq<char>| n != name implies self.subs_of(n) == pre.subs_of(n) by {
            Hub::lemma_topic_frame_one(pre, self, ti, n);
        }
        assert forall|n: Seq<char>, sid: u64| n != name implies self.queue_of(n, sid)
            == pre.queue_of(n, sid) by {
            Hub::lemma_topic_frame_one(pre, self, ti, n);
        }
    }

    /// Publishes the message to every currently registered topic; used
    /// for global updates such as presence changes.
    #[verifier::loop_isolation(false)]
    pub fn broadcast_to_all(&mut self, e: &Event)
        requires
            old(self).wf(),
        ensures
            final(self).wf(),
            forall|n: Seq<char>, sid: u64|
                old(self).has_sub(n, sid) ==> final(self).queue_of(n, sid) == Some(
                    spec_push_bounded(
                        old(self).queue_of(n, sid).unwrap(),
                        *e,
                        old(self).capacity as nat,
                    ),
                ),
            forall|n: Seq<char>, sid: u64|
                !old(self).has_sub(n, sid) ==> final(self).queue_of(n, sid) == None::<Seq<Event>>,
            forall|n: Seq<char>| final(self).subs_of(n) == old(self).subs_of(n),
            final(self).budgets == old(self).budgets,
            final(self).cap == old(self).cap,
            final(self).capacity == old(self).capacity,
            final(self).next_sub == old(self).next_sub,
    {
        let ghost pre = *self;
        let n = self.topics.len();
        let mut ti: usize = 0;
        while ti < n
            invariant
                ti <= n,
                self.wf(),
                n == pre.topics@.len(),
                self.topics@.len() == n,
                forall|j: int| ti <= j < n ==> self.topics@[j] == pre.topics@[j],
                forall|j: int|
                    0 <= j < ti ==> {
                        &&& self.topics@[j].name == pre.topics@[j].name
                        &&& self.topics@[j].subs@.len() == pre.topics@[j].subs@.len()
                    },
                forall|j: int, t: int|
                    0 <= j < ti && 0 <= t < pre.topics@[j].subs@.len() ==> {
                        &&& self.topics@[j].subs@[t].id == pre.topics@[j].subs@[t].id
                        &&& self.topics@[j].subs@[t].identity == pre.topics@[j].subs@[t].identity
                        &&& self.topics@[j].subs@[t].queue@ == spec_push_bounded(
                            pre.topics@[j].subs@[t].queue@,
                            *e,
                            pre.capacity as nat,
                        )
                    },
                self.budgets == pre.budgets,
                self.cap == pre.cap,
                self.capacity == pre.capacity,
                self.next_sub == pre.next_sub,
            decreases n - ti,
        {
            self.publish_at(ti, e);
            ti += 1;
        }
        proof {
            assert forall|nm: Seq<char>, sid: u64| pre.has_sub(nm, sid) implies self.queue_of(
                nm,
                sid,
            ) == Some(
                spec_push_bounded(pre.queue_of(nm, sid).unwrap(), *e, pre.capacity as nat),
            ) by {
                let i = pre.topic_idx(nm);
                pre.lemma_topic_at(i);
                self.lemma_topic_at(i);
                let t = pre.sub_idx(nm, sid);
                pre.lemma_sub_at(i, t);
                self.lemma_sub_at(i, t);
            }
            assert forall|nm: Seq<char>, sid: u64| !pre.has_sub(nm, sid) implies self.queue_of(
                nm,
                sid,
            ) == None::<Seq<Event>> by {
                if self.has_sub(nm, sid) {
                    let i = self.topic_idx(nm);
                    self.lemma_topic_at(i);
                    pre.lemma_topic_at(i);
                    let t = self.sub_idx(nm, sid);
                    assert(pre.topics@[i].subs@[t].id == sid);
                    assert(pre.has_sub(nm, sid));
                }
            }
            assert forall|nm: Seq<char>| self.subs_of(nm) == pre.subs_of(nm) by {
                if pre.has_topic(nm) {
                    let i = pre.topic_idx(nm);
                    pre.lemma_topic_at(i);
                    self.lemma_topic_at(i);
                    assert(self.subs_of(nm).unwrap() =~= pre.subs_of(nm).unwrap());
                } else {
                    assert forall|k: int|
                        0 <= k < self.topics@.len() implies #[trigger] self.topics@[k].name@
                        != nm by {
                        assert(pre.topics@[k].name@ != nm);
                    }
                }
            }
        }
    }

    /// Hands the subscriber its oldest undelivered event, if any.
    /// Events come out in the order they were published to the topic.
    pub fn recv(&mut self, topic: &String, sid: u64) -> (r: Option<Event>)
        requires
            old(self).wf(),
        ensures
            final(self).wf(),
            match old(self).queue_of(topic@, sid) {
                Some(q) => if q.len() > 0 {
                    r == Some(q[0]) && final(self).queue_of(topic@, sid) == Some(q.drop_first())
                } else {
                    r == None::<Event> && final(self).queue_of(topic@, sid) == Some(q)
                },
                None => r == None::<Event> && final(self).queue_of(topic@, sid)
                    == None::<Seq<Event>>,
            },
            forall|n: Seq<char>| final(self).subs_of(n) == old(self).subs_of(n),
            forall|n: Seq<char>, other: u64|
                !(n == topic@ && other == sid) ==> final(self).queue_of(n, other) == old(
                    self,
                ).queue_of(n, other),
            final(self).budgets == old(self).budgets,
            final(self).cap == old(self).cap,
            final(self).capacity == old(self).capacity,
            final(self).next_sub == old(self).next_sub,
    {
        let ghost pre = *self;
        match self.find_topic(topic) {
            None => {
                proof {
                    assert(!pre.has_sub(topic@, sid));
                }
                None
            },
            Some(ti) => {
                proof {
                    pre.lemma_topic_at(ti as int);
                }
                match self.find_sub(ti, sid) {
                    None => {
                        proof {
                            assert(!pre.has_sub(topic@, sid));
                        }
                        None
                    },
                    Some(t) => {
                        proof {
                            pre.lemma_sub_at(ti as int, t as int);
                        }
                        let r = self.topics[ti].subs[t].queue.pop_front();
                        proof {
                            let q = pre.topics@[ti as int].subs@[t as int].queue@;
                            assert(self.topics@[ti as int].subs@[t as int].queue@ =~= if q.len()
                                > 0 {
                                q.drop_first()
                            } else {
                                q
                            });
                            self.lemma_recv_shape(pre, ti as int, t as int, topic@, sid);
                        }
                        r
                    },
                }
            },
        }
    }

    /// After one subscriber's buffer shrank (or stayed) in place, the
    /// hub is well formed and everything else reads as before.
    proof fn lemma_recv_shape(self, pre: Hub, ti: int, t: int, name: Seq<char>, sid: u64)
        requires
            pre.wf(),
            0 <= ti < pre.topics@.len(),
            pre.topics@[ti].name@ == name,
            pre.topic_idx(name) == ti,
            0 <= t < pre.topics@[ti].subs@.len(),
            pre.topics@[ti].subs@[t].id == sid,
            pre.sub_idx(name, sid) == t,
            self.topics@.len() == pre.topics@.len(),
            forall|j: int|
                0 <= j < pre.topics@.len() && j != ti ==> self.topics@[j] == pre.topics@[j],
            self.topics@[ti].name == pre.topics@[ti].name,
            self.topics@[ti].subs@.len() == pre.topics@[ti].subs@.len(),
            forall|x: int|
                0 <= x < pre.topics@[ti].subs@.len() && x != t ==> self.topics@[ti].subs@[x]
                    == pre.topics@[ti].subs@[x],
            self.topics@[ti].subs@[t].id == pre.topics@[ti].subs@[t].id,
            self.topics@[ti].subs@[t].identity == pre.topics@[ti].subs@[t].identity,
            self.topics@[ti].subs@[t].queue@.len() <= pre.topics@[ti].subs@[t].queue@.len(),
            self.budgets == pre.budgets,
            self.cap == pre.cap,
            self.capacity == pre.capacity,
            self.next_sub == pre.next_sub,
        ensures
            self.wf(),
            self.queue_of(name, sid) == Some(self.topics@[ti].subs@[t].queue@),
            forall|n: Seq<char>| self.subs_of(n) == pre.subs_of(n),
            forall|n: Seq<char>, other: u64|
                !(n == name && other == sid) ==> self.queue_of(n, other) == pre.queue_of(n, other),
    {
        assert forall|i: int, s1: int, t1: int|
            0 <= i < self.topics@.len() && 0 <= s1 < t1 < self.topics@[i].subs@.len()
                implies self.topics@[i].subs@[s1].id != self.topics@[i].subs@[t1].id by {
            if i != ti {
                assert(self.topics@[i] == pre.topics@[i]);
            } else {
                assert(self.topics@[i].subs@[s1].id == pre.topics@[i].subs@[s1].id);
                assert(self.topics@[i].subs@[t1].id == pre.topics@[i].subs@[t1].id);
            }
        }
        assert forall|i: int, s1: int|
            0 <= i < self.topics@.len() && 0 <= s1 < self.topics@[i].subs@.len()
                implies #[trigger] self.topics@[i].subs@[s1].id < self.next_sub
                && #[trigger] self.topics@[i].subs@[s1].queue@.len() <= self.capacity by {
            if i != ti {
                assert(self.topics@[i] == pre.topics@[i]);
                assert(pre.topics@[i].subs@[s1].id < pre.next_sub);
                assert(pre.topics@[i].subs@[s1].queue@.len() <= pre.capacity);
            } else {
                assert(pre.topics@[i].subs@[s1].id < pre.next_sub);
                assert(pre.topics@[i].subs@[s1].queue@.len() <= pre.capacity);
                if s1 == t {
                    assert(self.topics@[i].subs@[s1].queue@.len() <= pre.topics@[i].subs@[
                        s1
                    ].queue@.len());
                }
            }
        }
        assert forall|i: int, j: int|
            0 <= i < j < self.topics@.len() implies self.topics@[i].name@
            != self.topics@[j].name@ by {
            assert(self.topics@[i].name@ == pre.topics@[i].name@);
            assert(self.topics@[j].name@ == pre.topics@[j].name@);
        }
        assert(self.wf());
        self.lemma_topic_at(ti);
        self.lemma_sub_at(ti, t);
        assert(self.subs_of(name).unwrap() =~= pre.subs_of(name).unwrap());
        assert forall|n: Seq<char>| n != name implies self.subs_of(n) == pre.subs_of(n) by {
            Hub::lemma_topic_frame_one(pre, self, ti, n);
        }
        assert forall|n: Seq<char>, other: u64|
            !(n == name && other == sid) implies self.queue_of(n, other) == pre.queue_of(
            n,
            other,
        ) by {
            if n != name {
                Hub::lemma_topic_frame_one(pre, self, ti, n);
            } else {
                if pre.has_sub(n, other) {
                    let x = pre.sub_idx(n, other);
                    pre.lemma_sub_at(ti, x);
                    self.lemma_sub_at(ti, x);
                    assert(x != t);
                } else {
                    if self.has_sub(n, other) {
                        let x = self.sub_idx(n, other);
                        assert(pre.topics@[ti].subs@[x].id == other);
                        assert(pre.has_sub(n, other));
                    }
                }
            }
        }
    }

    /// Removes subscriber `sid` from the topic.  The topic itself stays
    /// registered even when emptied: only the periodic `reap` deletes
    /// idle topics, so quick reconnects find the group again.
    pub fn unsubscribe(&mut self, topic: &String, sid: u64)
        requires
            old(self).wf(),
        ensures
            final(self).wf(),
            final(self).subs_of(topic@) == if old(self).has_sub(topic@, sid) {
                Some(
                    old(self).subs_of(topic@).unwrap().remove(old(self).sub_idx(topic@, sid)),
                )
            } else {
                old(self).subs_of(topic@)
            },
            final(self).queue_of(topic@, sid) == None::<Seq<Event>>,
            forall|other: u64|
                other != sid ==> final(self).queue_of(topic@, other) == old(self).queue_of(
                    topic@,
                    other,
                ),
            forall|n: Seq<char>| n != topic@ ==> final(self).subs_of(n) == old(self).subs_of(n),
            forall|n: Seq<char>, other: u64|
                n != topic@ ==> final(self).queue_of(n, other) == old(self).queue_of(n, other),
            final(self).budgets == old(self).budgets,
            final(self).cap == old(self).cap,
            final(self).capacity == old(self).capacity,
            final(self).next_sub == old(self).next_sub,
    {
        let ghost pre = *self;
        match self.find_topic(topic) {
            None => {
                proof {
                    assert(!pre.has_sub(topic@, sid));
                }
            },
            Some(ti) => {
                proof {
                    pre.lemma_topic_at(ti as int);
                }
                match self.find_sub(ti, sid) {
                    None => {
                        proof {
                            assert(!pre.has_sub(topic@, sid));
                        }
                    },
                    Some(t) => {
                        proof {
                            pre.lemma_sub_at(ti as int, t as int);
                        }
                        self.topics[ti].subs.remove(t);
                        proof {
                            self.lemma_unsubscribed(pre, ti as int, t as int, topic@, sid);
                        }
                    },
                }
            },
        }
    }

    /// After removing the subscriber at position `t` of topic `ti`, the
    /// hub is well formed, the topic's roster lost exactly that entry,
    /// and every other buffer reads as before.
    proof fn lemma_unsubscribed(self, pre: Hub, ti: int, t: int, name: Seq<char>, sid: u64)
        requires
            pre.wf(),
            0 <= ti < pre.topics@.len(),
            pre.topics@[ti].name@ == name,
            pre.topic_idx(name) == ti,
            0 <= t < pre.topics@[ti].subs@.len(),
            pre.topics@[ti].subs@[t].id == sid,
            pre.sub_idx(name, sid) == t,
            self.topics@.len() == pre.topics@.len(),
            forall|j: int|
                0 <= j < pre.topics@.len() && j != ti ==> self.topics@[j] == pre.topics@[j],
            self.topics@[ti].name == pre.topics@[ti].name,
            self.topics@[ti].subs@ == pre.topics@[ti].subs@.remove(t),
            self.budgets == pre.budgets,
            self.cap == pre.cap,
            self.capacity == pre.capacity,
            self.next_sub == pre.next_sub,
        ensures
            self.wf(),
            self.subs_of(name) == Some(pre.subs_of(name).unwrap().remove(t)),
            self.queue_of(name, sid) == None::<Seq<Event>>,
            forall|other: u64|
                other != sid ==> self.queue_of(name, other) == pre.queue_of(name, other),
            forall|n: Seq<char>| n != name ==> self.subs_of(n) == pre.subs_of(n),
            forall|n: Seq<char>, other: u64|
                n != name ==> self.queue_of(n, other) == pre.queue_of(n, other),
    {
        let m = pre.topics@[ti].subs@.len() as int;
        assert forall|i: int, s1: int, t1: int|
            0 <= i < self.topics@.len() && 0 <= s1 < t1 < self.topics@[i].subs@.len()
                implies self.topics@[i].subs@[s1].id != self.topics@[i].subs@[t1].id by {
            if i != ti {
                assert(self.topics@[i] == pre.topics@[i]);
            } else {
                let p1: int = if s1 < t { s1 } else { s1 + 1 };
                let p2: int = if t1 < t { t1 } else { t1 + 1 };
                assert(self.topics@[i].subs@[s1] == pre.topics@[i].subs@[p1]);
                assert(self.topics@[i].subs@[t1] == pre.topics@[i].subs@[p2]);
            }
        }
        assert forall|i: int, s1: int|
            0 <= i < self.topics@.len() && 0 <= s1 < self.topics@[i].subs@.len()
                implies #[trigger] self.topics@[i].subs@[s1].id < self.next_sub
                && #[trigger] self.topics@[i].subs@[s1].queue@.len() <= self.capacity by {
            if i != ti {
                assert(self.topics@[i] == pre.topics@[i]);
                assert(pre.topics@[i].subs@[s1].id < pre.next_sub);
                assert(pre.topics@[i].subs@[s1].queue@.len() <= pre.capacity);
            } else {
                let p1: int = if s1 < t { s1 } else { s1 + 1 };
                assert(self.topics@[i].subs@[s1] == pre.topics@[i].subs@[p1]);
                assert(pre.topics@[i].subs@[p1].id < pre.next_sub);
                assert(pre.topics@[i].subs@[p1].queue@.len() <= pre.capacity);
            }
        }
        assert forall|i: int, j: int|
            0 <= i < j < self.topics@.len() implies self.topics@[i].name@
            != self.topics@[j].name@ by {
            assert(self.topics@[i].name@ == pre.topics@[i].name@);
            assert(self.topics@[j].name@ == pre.topics@[j].name@);
        }
        assert(self.wf());
        self.lemma_topic_at(ti);
        assert(self.subs_of(name).unwrap() =~= pre.subs_of(name).unwrap().remove(t));
        assert forall|n: Seq<char>| n != name implies self.subs_of(n) == pre.subs_of(n) by {
            Hub::lemma_topic_frame_one(pre, self, ti, n);
        }
        assert forall|n: Seq<char>, other: u64| n != name implies self.queue_of(n, other)
            == pre.queue_of(n, other) by {
            Hub::lemma_topic_frame_one(pre, self, ti, n);
        }
        assert forall|s1: int|
            0 <= s1 < self.topics@[ti].subs@.len() implies #[trigger] self.topics@[ti].subs@[
            s1
        ].id != sid by {
            let p1: int = if s1 < t { s1 } else { s1 + 1 };
            assert(self.topics@[ti].subs@[s1] == pre.topics@[ti].subs@[p1]);
            if p1 != t {
                if p1 < t {
                    assert(pre.topics@[ti].subs@[p1].id != pre.topics@[ti].subs@[t].id);
                } else {
                    assert(pre.topics@[ti].subs@[t].id != pre.topics@[ti].subs@[p1].id);
                }
            }
        }
        assert(!self.has_sub(name, sid));
        assert forall|other: u64| other != sid implies self.queue_of(name, other) == pre.queue_of(
            name,
            other,
        ) by {
            if pre.has_sub(name, other) {
                let x = pre.sub_idx(name, other);
                pre.lemma_sub_at(ti, x);
                assert(x != t);
                let x2: int = if x < t { x } else { x - 1 };
                assert(self.topics@[ti].subs@[x2] == pre.topics@[ti].subs@[x]);
                self.lemma_sub_at(ti, x2);
            } else {
                if self.has_sub(name, other) {
                    let x = self.sub_idx(name, other);
                    let p1: int = if x < t { x } else { x + 1 };
                    assert(self.topics@[ti].subs@[x] == pre.topics@[ti].subs@[p1]);
                    assert(pre.topics@[ti].subs@[p1].id == other);
                    assert(pre.has_sub(name, other));
                }
            }
        }
    }

    /// The periodic sweep: unregisters every topic that currently has
    /// no subscriber.  Topics with at least one subscriber survive with
    /// their subscribers and buffers untouched, as do the budgets.
    #[verifier::loop_isolation(false)]
    pub fn reap(&mut self)
        requires
            old(self).wf(),
        ensures
            final(self).wf(),
            forall|n: Seq<char>|
                final(self).subs_of(n) == match old(self).subs_of(n) {
                    Some(s) => if s.len() > 0 {
                        Some(s)
                    } else {
                        None::<Seq<(u64, Seq<char>)>>
                    },
                    None => None::<Seq<(u64, Seq<char>)>>,
                },
            forall|n: Seq<char>, sid: u64|
                final(self).queue_of(n, sid) == old(self).queue_of(n, sid),
            final(self).budgets == old(self).budgets,
            final(self).cap == old(self).cap,
            final(self).capacity == old(self).capacity,
            final(self).next_sub == old(self).next_sub,
    {
        let ghost pre = *self;
        let mut i: usize = 0;
        let ghost mut kept: Seq<int> = Seq::empty();
        let ghost mut k: int = 0;
        while i < self.topics.len()
            invariant
                0 <= i as int,
                i as int <= k <= pre.topics@.len(),
                self.topics@.len() == i + (pre.topics@.len() - k),
                kept.len() == i as int,
                forall|a: int, b: int| 0 <= a < b < kept.len() ==> kept[a] < kept[b],
                forall|a: int|
                    0 <= a < kept.len() ==> 0 <= #[trigger] kept[a] < k && self.topics@[a]
                        == pre.topics@[kept[a]] && pre.topics@[kept[a]].subs@.len() > 0,
                forall|j: int|
                    k <= j < pre.topics@.len() ==> self.topics@[i + (j - k)] == pre.topics@[j],
                forall|j: int|
                    0 <= j < k && pre.topics@[j].subs@.len() > 0 ==> exists|a: int|
                        0 <= a < kept.len() && #[trigger] kept[a] == j,
                self.budgets == pre.budgets,
                self.cap == pre.cap,
                self.capacity == pre.capacity,
                self.next_sub == pre.next_sub,
            decreases pre.topics@.len() - k,
        {
            proof {
                assert(self.topics@[i as int] == pre.topics@[k]);
            }
            if self.topics[i].subs.len() == 0 {
                self.topics.remove(i);
                proof {
                    k = k + 1;
                }
            } else {
                proof {
                    let kept_old = kept;
                    kept = kept.push(k);
                    k = k + 1;
                    assert(kept[kept.len() - 1] == k - 1);
                    assert forall|j: int|
                        0 <= j < k && pre.topics@[j].subs@.len() > 0 implies exists|a: int|
                        0 <= a < kept.len() && #[trigger] kept[a] == j by {
                        if j == k - 1 {
                            assert(kept[kept.len() - 1] == j);
                        } else {
                            let a = choose|a: int|
                                0 <= a < kept_old.len() && #[trigger] kept_old[a] == j;
                            assert(kept[a] == j);
                        }
                    }
                }
                i += 1;
            }
        }
        proof {
            assert(k == pre.topics@.len());
            self.lemma_reaped(pre, kept);
        }
    }

    /// Name-level reading of the sweep: a registry holding exactly the
    /// nonempty topics of `pre`, in order, serves every name as `pre`
    /// did, minus the emptied topics.
    proof fn lemma_reaped(self, pre: Hub, kept: Seq<int>)
        requires
            pre.wf(),
            self.topics@.len() == kept.len(),
            forall|a: int, b: int| 0 <= a < b < kept.len() ==> kept[a] < kept[b],
            forall|a: int|
                0 <= a < kept.len() ==> 0 <= #[trigger] kept[a] < pre.topics@.len()
                    && self.topics@[a] == pre.topics@[kept[a]]
                    && pre.topics@[kept[a]].subs@.len() > 0,
            forall|j: int|
                0 <= j < pre.topics@.len() && pre.topics@[j].subs@.len() > 0 ==> exists|a: int|
                    0 <= a < kept.len() && #[trigger] kept[a] == j,
            self.budgets == pre.budgets,
            self.cap == pre.cap,
            self.capacity == pre.capacity,
            self.next_sub == pre.next_sub,
        ensures
            self.wf(),
            forall|n: Seq<char>|
                self.subs_of(n) == match pre.subs_of(n) {
                    Some(s) => if s.len() > 0 {
                        Some(s)
                    } else {
                        None::<Seq<(u64, Seq<char>)>>
                    },
                    None => None::<Seq<(u64, Seq<char>)>>,
                },
            forall|n: Seq<char>, sid: u64| self.queue_of(n, sid) == pre.queue_of(n, sid),
    {
        assert forall|a: int, b: int|
            0 <= a < b < self.topics@.len() implies self.topics@[a].name@
            != self.topics@[b].name@ by {
            assert(kept[a] < kept[b]);
            assert(pre.topics@[kept[a]].name@ != pre.topics@[kept[b]].name@);
        }
        assert forall|a: int, s1: int, t1: int|
            0 <= a < self.topics@.len() && 0 <= s1 < t1 < self.topics@[a].subs@.len()
                implies self.topics@[a].subs@[s1].id != self.topics@[a].subs@[t1].id by {
            assert(self.topics@[a] == pre.topics@[kept[a]]);
        }
        assert forall|a: int, s1: int|
            0 <= a < self.topics@.len() && 0 <= s1 < self.topics@[a].subs@.len()
                implies #[trigger] self.topics@[a].subs@[s1].id < self.next_sub by {
            assert(self.topics@[a] == pre.topics@[kept[a]]);
            assert(pre.topics@[kept[a]].subs@[s1].id < pre.next_sub);
        }
        assert forall|a: int, s1: int|
            0 <= a < self.topics@.len() && 0 <= s1 < self.topics@[a].subs@.len()
                implies #[trigger] self.topics@[a].subs@[s1].queue@.len() <= self.capacity by {
            assert(self.topics@[a] == pre.topics@[kept[a]]);
            assert(pre.topics@[kept[a]].subs@[s1].queue@.len() <= pre.capacity);
        }
        assert(self.cap >= 1 && self.capacity >= 1);
        assert(self.budgets@ == pre.budgets@);
        assert forall|x: int, y: int|
            0 <= x < y < self.budgets@.len() implies self.budgets@[x].0@
            != self.budgets@[y].0@ by {
            assert(pre.budgets@[x].0@ != pre.budgets@[y].0@);
        }
        assert forall|x: int|
            0 <= x < self.budgets@.len() implies 1 <= #[trigger] self.budgets@[
            x
        ].1.connection_count <= self.cap by {
            assert(1 <= pre.budgets@[x].1.connection_count <= pre.cap);
        }
        assert(self.wf());
        assert forall|n: Seq<char>|
            self.subs_of(n) == (match pre.subs_of(n) {
                Some(s) => if s.len() > 0 {
                    Some(s)
                } else {
                    None::<Seq<(u64, Seq<char>)>>
                },
                None => None::<Seq<(u64, Seq<char>)>>,
            }) by {
            self.lemma_reaped_one(pre, kept, n);
        }
        assert forall|n: Seq<char>, sid: u64| self.queue_of(n, sid) == pre.queue_of(
            n,
            sid,
        ) by {
            self.lemma_reaped_one(pre, kept, n);
        }
    }

    /// One name's worth of `lemma_reaped`.
    proof fn lemma_reaped_one(self, pre: Hub, kept: Seq<int>, n: Seq<char>)
        requires
            pre.wf(),
            self.wf(),
            self.topics@.len() == kept.len(),
            forall|a: int, b: int| 0 <= a < b < kept.len() ==> kept[a] < kept[b],
            forall|a: int|
                0 <= a < kept.len() ==> 0 <= #[trigger] kept[a] < pre.topics@.len()
                    && self.topics@[a] == pre.topics@[kept[a]]
                    && pre.topics@[kept[a]].subs@.len() > 0,
            forall|j: int|
                0 <= j < pre.topics@.len() && pre.topics@[j].subs@.len() > 0 ==> exists|a: int|
                    0 <= a < kept.len() && #[trigger] kept[a] == j,
        ensures
            self.subs_of(n) == match pre.subs_of(n) {
                Some(s) => if s.len() > 0 {
                    Some(s)
                } else {
                    None::<Seq<(u64, Seq<char>)>>
                },
                None => None::<Seq<(u64, Seq<char>)>>,
            },
            forall|sid: u64| self.queue_of(n, sid) == pre.queue_of(n, sid),
    {
        {
            if pre.has_topic(n) {
                let i0 = pre.topic_idx(n);
                pre.lemma_topic_at(i0);
                if pre.topics@[i0].subs@.len() > 0 {
                    let a = choose|a: int| 0 <= a < kept.len() && #[trigger] kept[a] == i0;
                    assert(self.topics@[a] == pre.topics@[i0]);
                    self.lemma_topic_at(a);
                    assert(self.subs_of(n).unwrap() =~= pre.subs_of(n).unwrap());
                    assert forall|sid: u64| self.queue_of(n, sid) == pre.queue_of(n, sid) by {
                        assert(self.has_sub(n, sid) == pre.has_sub(n, sid));
                        if pre.has_sub(n, sid) {
                            assert(self.sub_idx(n, sid) == pre.sub_idx(n, sid));
                        }
                    }
                } else {
                    assert forall|a: int|
                        0 <= a < self.topics@.len() implies #[trigger] self.topics@[a].name@
                        != n by {
                        if kept[a] != i0 {
                            if kept[a] < i0 {
                                assert(pre.topics@[kept[a]].name@ != pre.topics@[i0].name@);
                            } else {
                                assert(pre.topics@[i0].name@ != pre.topics@[kept[a]].name@);
                            }
                        } else {
                            assert(pre.topics@[kept[a]].subs@.len() > 0);
                            assert(false);
                        }
                    }
                    assert(!self.has_topic(n));
                    assert forall|sid: u64| self.queue_of(n, sid) == pre.queue_of(n, sid) by {
                        assert(!self.has_sub(n, sid));
                        assert(!pre.has_sub(n, sid));
                    }
                }
            } else {
                assert forall|a: int|
                    0 <= a < self.topics@.len() implies #[trigger] self.topics@[a].name@ != n by {
                    assert(self.topics@[a] == pre.topics@[kept[a]]);
                    assert(pre.topics@[kept[a]].name@ != n);
                }
                assert(!self.has_topic(n));
                assert forall|sid: u64| self.queue_of(n, sid) == pre.queue_of(n, sid) by {
                    assert(!self.has_sub(n, sid));
                    assert(!pre.has_sub(n, sid));
                }
            }
        }
    }

    /// Two hubs with the same topic registry serve every name with the
    /// same subscribers and buffers, whatever their budgets hold.
    pub proof fn lemma_same_topics(a: Hub, b: Hub)
        requires
            a.wf(),
            b.wf(),
            a.topics == b.topics,
        ensures
            forall|n: Seq<char>| a.has_topic(n) == b.has_topic(n),
            forall|n: Seq<char>| a.subs_of(n) == b.subs_of(n),
            forall|n: Seq<char>, sid: u64| a.queue_of(n, sid) == b.queue_of(n, sid),
    {
        assert forall|n: Seq<char>|
            a.has_topic(n) == b.has_topic(n) && a.subs_of(n) == b.subs_of(n) by {
            Hub::lemma_same_topics_one(a, b, n);
        }
        assert forall|n: Seq<char>, sid: u64| a.queue_of(n, sid) == b.queue_of(n, sid) by {
            Hub::lemma_same_topics_one(a, b, n);
        }
    }

    /// One name's worth of `lemma_same_topics`.
    proof fn lemma_same_topics_one(a: Hub, b: Hub, n: Seq<char>)
        requires
            a.wf(),
            b.wf(),
            a.topics == b.topics,
        ensures
            a.has_topic(n) == b.has_topic(n),
            a.subs_of(n) == b.subs_of(n),
            forall|sid: u64| a.queue_of(n, sid) == b.queue_of(n, sid),
    {
        assert(a.topics@ == b.topics@);
        if a.has_topic(n) {
            let i = a.topic_idx(n);
            a.lemma_topic_at(i);
            b.lemma_topic_at(i);
            assert(a.subs_of(n) == b.subs_of(n));
            assert forall|sid: u64| a.queue_of(n, sid) == b.queue_of(n, sid) by {
                if a.has_sub(n, sid) {
                    let t = a.sub_idx(n, sid);
                    a.lemma_sub_at(i, t);
                    b.lemma_sub_at(i, t);
                } else {
                    if b.has_sub(n, sid) {
                        let t = b.sub_idx(n, sid);
                        assert(a.topics@[i].subs@[t].id == sid);
                        assert(a.has_sub(n, sid));
                    }
                }
            }
        } else {
            assert forall|k: int| 0 <= k < b.topics@.len() implies #[trigger] b.topics@[k].name@
                != n by {
                if a.topics@[k].name@ == n {
                    assert(a.has_topic(n));
                }
            }
            assert(!b.has_topic(n));
        }
    }
}

/// The buffer of a subscriber that was present for a whole sequence of
/// publishes, starting empty.
pub open spec fn spec_queue_after(msgs: Seq<Event>, cap: nat) -> Seq<Event>
    decreases msgs.len(),
{
    if msgs.len() == 0 {
        Seq::empty()
    } else {
        spec_push_bounded(spec_queue_after(msgs.drop_last(), cap), msgs.last(), cap)
    }
}

/// Lossy fan-out, made exact: after any sequence of publishes, a
/// subscriber that started empty holds precisely the most recent `cap`
/// of them, in publish order.  Delivery is at-most-once (dropped
/// messages are the oldest, never resent) and order-preserving.
pub proof fn lemma_fanout_window(msgs: Seq<Event>, cap: nat)
    requires
        cap >= 1,
    ensures
        spec_queue_after(msgs, cap) == if msgs.len() <= cap {
            msgs
        } else {
            msgs.skip(msgs.len() - cap)
        },
    decreases msgs.len(),
{
    if msgs.len() == 0 {
        assert(spec_queue_after(msgs, cap) =~= msgs);
    } else {
        let head = msgs.drop_last();
        lemma_fanout_window(head, cap);
        let q = spec_queue_after(head, cap);
        if head.len() < cap {
            assert(q == head);
            assert(q.push(msgs.last()) =~= msgs);
        } else if head.len() == cap {
            assert(q == head);
            assert(q.subrange(1, q.len() as int).push(msgs.last()) =~= msgs.skip(
                msgs.len() - cap,
            ));
        } else {
            assert(q == head.skip(head.len() - cap));
            assert(q.len() == cap);
            assert(q.subrange(1, q.len() as int).push(msgs.last()) =~= msgs.skip(
                msgs.len() - cap,
            ));
        }
    }
}

} // verus!
