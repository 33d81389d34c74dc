//! Short-lived signal tables: typing indicators and voice sessions.
//!
//! Both follow one pattern, parameterized by the expiry window: a row
//! per (topic, user) carrying a payload (a username, a peer id) and a
//! timestamp.  Rows are never reaped by a timer; writers and readers
//! purge expired rows opportunistically, and a row older than the
//! window is treated as absent even before it is physically deleted.

use vstd::prelude::*;

verus! {

/// Typing indicators expire after this many seconds of inactivity.
pub const TYPING_EXPIRY_SECS: u64 = 10;

/// Voice sessions expire after this many seconds without a heartbeat.
pub const VOICE_EXPIRY_SECS: u64 = 30;

/// What a typing read reports for one user.
#[derive(Debug)]
pub struct TypingUser {
    pub user_id: String,
    pub username: String,
}

/// One row: (topic, user) -> (payload, timestamp).
pub struct SignalEntry {
    pub topic: String,
    pub user: String,
    pub data: String,
    pub stamp: u64,
}

/// A table of signal rows with a fixed expiry window, unique per
/// (topic, user).
pub struct SignalTable {
    pub entries: Vec<SignalEntry>,
    pub expiry: u64,
}

/// Whether a stamp makes a row visible at `now`: set, and no older
/// than the expiry window.
pub open spec fn spec_listed(stamp: Option<u64>, expiry: u64, now: u64) -> bool {
    stamp matches Some(s) && s + expiry >= now
}

impl SignalTable {
    /// At most one row per (topic, user).
    pub open spec fn wf(self) -> bool {
        forall|i: int, j: int|
            0 <= i < j < self.entries@.len() ==> !(self.entries@[i].topic@
                == self.entries@[j].topic@ && self.entries@[i].user@ == self.entries@[j].user@)
    }

    /// Whether the table physically holds a row for the pair.
    pub open spec fn has_row(self, topic: Seq<char>, user: Seq<char>) -> bool {
        exists|i: int|
            0 <= i < self.entries@.len() && #[trigger] self.entries@[i].topic@ == topic
                && self.entries@[i].user@ == user
    }

    /// The position of the pair's row.
    pub open spec fn row_idx(self, topic: Seq<char>, user: Seq<char>) -> int {
        choose|i: int|
            0 <= i < self.entries@.len() && #[trigger] self.entries@[i].topic@ == topic
                && self.entries@[i].user@ == user
    }

    /// The pair's timestamp, if it has a row.
    pub open spec fn stamp_of(self, topic: Seq<char>, user: Seq<char>) -> Option<u64> {
        if self.has_row(topic, user) {
            Some(self.entries@[self.row_idx(topic, user)].stamp)
        } else {
            None
        }
    }

    /// The pair's payload, if it has a row.
    pub open spec fn data_of(self, topic: Seq<char>, user: Seq<char>) -> Option<Seq<char>> {
        if self.has_row(topic, user) {
            Some(self.entries@[self.row_idx(topic, user)].data@)
        } else {
            None
        }
    }

    /// Whether the pair is visible at `now`: its row exists and lies
    /// within the expiry window.
    pub open spec fn listed(self, topic: Seq<char>, user: Seq<char>, now: u64) -> bool {
        spec_listed(self.stamp_of(topic, user), self.expiry, now)
    }

    /// An empty table with the given expiry window.
    pub fn new(expiry: u64) -> (t: SignalTable)
        ensures
            t.wf(),
            t.expiry == expiry,
            t.entries@.len() == 0,
            forall|tp: Seq<char>, u: Seq<char>| t.stamp_of(tp, u) == None::<u64>,
            forall|tp: Seq<char>, u: Seq<char>| t.data_of(tp, u) == None::<Seq<char>>,
    {
        SignalTable { entries: Vec::new(), expiry }
    }

    /// With unique pairs, the row at `at` is the one its pair finds.
    proof fn lemma_row_at(self, at: int)
        requires
            self.wf(),
            0 <= at < self.entries@.len(),
        ensures
            self.has_row(self.entries@[at].topic@, self.entries@[at].user@),
            self.row_idx(self.entries@[at].topic@, self.entries@[at].user@) == at,
            self.stamp_of(self.entries@[at].topic@, self.entries@[at].user@) == Some(
                self.entries@[at].stamp,
            ),
            self.data_of(self.entries@[at].topic@, self.entries@[at].user@) == Some(
                self.entries@[at].data@,
            ),
    {
        let t = self.entries@[at].topic@;
        let u = self.entries@[at].user@;
        assert(self.has_row(t, u));
        let k = self.row_idx(t, u);
        if k != at {
            if k < at {
                assert(!(self.entries@[k].topic@ == self.entries@[at].topic@
                    && self.entries@[k].user@ == self.entries@[at].user@));
            } else {
                assert(!(self.entries@[at].topic@ == self.entries@[k].topic@
                    && self.entries@[at].user@ == self.entries@[k].user@));
            }
        }
    }

    /// Deletes every row older than the expiry window.  Every pair
    /// that was within the window keeps its row, timestamp and
    /// payload; every other pair ends without a row.
    #[verifier::loop_isolation(false)]
    pub fn purge(&mut self, now: u64)
        requires
            old(self).wf(),
        ensures
            final(self).wf(),
            final(self).expiry == old(self).expiry,
            forall|tp: Seq<char>, u: Seq<char>|
                final(self).stamp_of(tp, u) == if old(self).listed(tp, u, now) {
                    old(self).stamp_of(tp, u)
                } else {
                    None::<u64>
                },
            forall|tp: Seq<char>, u: Seq<char>|
                final(self).data_of(tp, u) == if old(self).listed(tp, u, now) {
                    old(self).data_of(tp, u)
                } else {
                    None::<Seq<char>>
                },
    {
        let ghost pre = *self;
        let mut i: usize = 0;
        let ghost mut kept: Seq<int> = Seq::empty();
        let ghost mut k: int = 0;
        while i < self.entries.len()
            invariant
                0 <= i as int,
                i as int <= k <= pre.entries@.len(),
                self.entries@.len() == i + (pre.entries@.len() - k),
                self.expiry == pre.expiry,
                kept.len() == i as int,
                forall|a: int, b: int| 0 <= a < b < kept.len() ==> kept[a] < kept[b],
                forall|a: int|
                    0 <= a < kept.len() ==> 0 <= #[trigger] kept[a] < k && self.entries@[a]
                        == pre.entries@[kept[a]] && pre.entries@[kept[a]].stamp + pre.expiry
                        >= now,
                forall|j: int|
                    k <= j < pre.entries@.len() ==> self.entries@[i + (j - k)] == pre.entries@[j],
                forall|j: int|
                    0 <= j < k && pre.entries@[j].stamp + pre.expiry >= now ==> exists|a: int|
                        0 <= a < kept.len() && #[trigger] kept[a] == j,
            decreases pre.entries@.len() - k,
        {
            proof {
                assert(self.entries@[i as int] == pre.entries@[k]);
            }
            let stale = now > self.expiry && self.entries[i].stamp < now - self.expiry;
            if stale {
                self.entries.remove(i);
                proof {
                    k = k + 1;
                }
            } else {
                proof {
                    let kept_old = kept;
                    kept = kept.push(k);
                    k = k + 1;
                    assert(kept[kept.len() - 1] == k - 1);
                    assert forall|j: int|
                        0 <= j < k && pre.entries@[j].stamp + pre.expiry >= now
                            implies exists|a: int|
                        0 <= a < kept.len() && #[trigger] kept[a] == j by {
                        if j == k - 1 {
                            assert(kept[kept.len() - 1] == j);
                        } else {
                            let a = choose|a: int|
                                0 <= a < kept_old.len() && #[trigger] kept_old[a] == j;
                            assert(kept[a] == j);
                        }
                    }
                }
                i += 1;
            }
        }
        proof {
            assert(k == pre.entries@.len());
            self.lemma_purged(pre, kept, now);
        }
    }

    /// Pair-level reading of the purge sweep.
    proof fn lemma_purged(self, pre: SignalTable, kept: Seq<int>, now: u64)
        requires
            pre.wf(),
            self.expiry == pre.expiry,
            self.entries@.len() == kept.len(),
            forall|a: int, b: int| 0 <= a < b < kept.len() ==> kept[a] < kept[b],
            forall|a: int|
                0 <= a < kept.len() ==> 0 <= #[trigger] kept[a] < pre.entries@.len()
                    && self.entries@[a] == pre.entries@[kept[a]] && pre.entries@[kept[a]].stamp
                    + pre.expiry >= now,
            forall|j: int|
                0 <= j < pre.entries@.len() && pre.entries@[j].stamp + pre.expiry >= now
                    ==> exists|a: int| 0 <= a < kept.len() && #[trigger] kept[a] == j,
        ensures
            self.wf(),
            forall|tp: Seq<char>, u: Seq<char>|
                self.stamp_of(tp, u) == if pre.listed(tp, u, now) {
                    pre.stamp_of(tp, u)
                } else {
                    None::<u64>
                },
            forall|tp: Seq<char>, u: Seq<char>|
                self.data_of(tp, u) == if pre.listed(tp, u, now) {
                    pre.data_of(tp, u)
                } else {
                    None::<Seq<char>>
                },
    {
        assert forall|a: int, b: int|
            0 <= a < b < self.entries@.len() implies !(self.entries@[a].topic@
                == self.entries@[b].topic@ && self.entries@[a].user@
                == self.entries@[b].user@) by {
            assert(kept[a] < kept[b]);
            assert(self.entries@[a] == pre.entries@[kept[a]]);
            assert(self.entries@[b] == pre.entries@[kept[b]]);
        }
        assert(self.wf());
        assert forall|tp: Seq<char>, u: Seq<char>|
            self.stamp_of(tp, u) == (if pre.listed(tp, u, now) {
                pre.stamp_of(tp, u)
            } else {
                None::<u64>
            }) && self.data_of(tp, u) == (if pre.listed(tp, u, now) {
                pre.data_of(tp, u)
            } else {
                None::<Seq<char>>
            }) by {
            self.lemma_purged_one(pre, kept, now, tp, u);
        }
    }

    /// One pair's worth of `lemma_purged`.
    proof fn lemma_purged_one(
        self,
        pre: SignalTable,
        kept: Seq<int>,
        now: u64,
        tp: Seq<char>,
        u: Seq<char>,
    )
        requires
            pre.wf(),
            self.wf(),
            self.expiry == pre.expiry,
            self.entries@.len() == kept.len(),
            forall|a: int, b: int| 0 <= a < b < kept.len() ==> kept[a] < kept[b],
            forall|a: int|
                0 <= a < kept.len() ==> 0 <= #[trigger] kept[a] < pre.entries@.len()
                    && self.entries@[a] == pre.entries@[kept[a]] && pre.entries@[kept[a]].stamp
                    + pre.expiry >= now,
            forall|j: int|
                0 <= j < pre.entries@.len() && pre.entries@[j].stamp + pre.expiry >= now
                    ==> exists|a: int| 0 <= a < kept.len() && #[trigger] kept[a] == j,
        ensures
            self.stamp_of(tp, u) == if pre.listed(tp, u, now) {
                pre.stamp_of(tp, u)
            } else {
                None::<u64>
            },
            self.data_of(tp, u) == if pre.listed(tp, u, now) {
                pre.data_of(tp, u)
            } else {
                None::<Seq<char>>
            },
    {
        if pre.has_row(tp, u) {
            let i0 = pre.row_idx(tp, u);
            pre.lemma_row_at(i0);
            if pre.entries@[i0].stamp + pre.expiry >= now {
                let a = choose|a: int| 0 <= a < kept.len() && #[trigger] kept[a] == i0;
                assert(self.entries@[a] == pre.entries@[i0]);
                self.lemma_row_at(a);
                assert(pre.listed(tp, u, now));
            } else {
                assert(!pre.listed(tp, u, now));
                assert forall|a: int|
                    0 <= a < self.entries@.len() implies !(#[trigger] self.entries@[a].topic@
                        == tp && self.entries@[a].user@ == u) by {
                    if kept[a] != i0 {
                        if kept[a] < i0 {
                            assert(!(pre.entries@[kept[a]].topic@ == pre.entries@[i0].topic@
                                && pre.entries@[kept[a]].user@ == pre.entries@[i0].user@));
                        } else {
                            assert(!(pre.entries@[i0].topic@ == pre.entries@[kept[a]].topic@
                                && pre.entries@[i0].user@ == pre.entries@[kept[a]].user@));
                        }
                    } else {
                        assert(pre.entries@[kept[a]].stamp + pre.expiry >= now);
                        assert(false);
                    }
                }
                assert(!self.has_row(tp, u));
            }
        } else {
            assert(!pre.listed(tp, u, now));
            assert forall|a: int|
                0 <= a < self.entries@.len() implies !(#[trigger] self.entries@[a].topic@ == tp
                    && self.entries@[a].user@ == u) by {
                assert(self.entries@[a] == pre.entries@[kept[a]]);
                assert(!(pre.entries@[kept[a]].topic@ == tp && pre.entries@[kept[a]].user@ == u));
            }
            assert(!self.has_row(tp, u));
        }
    }

    /// Finds the position of the pair's row.
    #[verifier::loop_isolation(false)]
    fn find_row(&self, topic: &String, user: &String) -> (r: Option<usize>)
        ensures
            match r {
                Some(i) => i < self.entries@.len() && self.entries@[i as int].topic@ == topic@
                    && self.entries@[i as int].user@ == user@,
                None => !self.has_row(topic@, user@),
            },
    {
        let n = self.entries.len();
        let mut i: usize = 0;
        while i < n
            invariant
                i <= n,
                forall|j: int|
                    0 <= j < i ==> !(self.entries@[j].topic@ == topic@ && self.entries@[j].user@
                        == user@),
            decreases n - i,
        {
            if self.entries[i].topic == *topic && self.entries[i].user == *user {
                return Some(i);
            }
            i += 1;
        }
        None
    }

    /// Replacing the row at `at` without changing its pair leaves every
    /// other pair's stamp and payload as they were.
    proof fn lemma_row_frame(pre: SignalTable, post: SignalTable, at: int)
        requires
            pre.wf(),
            0 <= at < pre.entries@.len(),
            post.entries@.len() == pre.entries@.len(),
            forall|j: int|
                0 <= j < pre.entries@.len() && j != at ==> post.entries@[j] == pre.entries@[j],
            post.entries@[at].topic@ == pre.entries@[at].topic@,
            post.entries@[at].user@ == pre.entries@[at].user@,
        ensures
            post.wf(),
            post.stamp_of(pre.entries@[at].topic@, pre.entries@[at].user@) == Some(
                post.entries@[at].stamp,
            ),
            post.data_of(pre.entries@[at].topic@, pre.entries@[at].user@) == Some(
                post.entries@[at].data@,
            ),
            forall|tp: Seq<char>, u: Seq<char>|
                !(tp == pre.entries@[at].topic@ && u == pre.entries@[at].user@) ==> post.stamp_of(
                    tp,
                    u,
                ) == pre.stamp_of(tp, u) && post.data_of(tp, u) == pre.data_of(tp, u),
    {
        assert forall|i: int, j: int|
            0 <= i < j < post.entries@.len() implies !(post.entries@[i].topic@
                == post.entries@[j].topic@ && post.entries@[i].user@
                == post.entries@[j].user@) by {
            assert(post.entries@[i].topic@ == pre.entries@[i].topic@ && post.entries@[i].user@
                == pre.entries@[i].user@);
            assert(post.entries@[j].topic@ == pre.entries@[j].topic@ && post.entries@[j].user@
                == pre.entries@[j].user@);
        }
        post.lemma_row_at(at);
        assert forall|tp: Seq<char>, u: Seq<char>|
            !(tp == pre.entries@[at].topic@ && u == pre.entries@[at].user@) implies post.stamp_of(
            tp,
            u,
        ) == pre.stamp_of(tp, u) && post.data_of(tp, u) == pre.data_of(tp, u) by {
            if pre.has_row(tp, u) {
                let i = pre.row_idx(tp, u);
                pre.lemma_row_at(i);
                assert(i != at);
                assert(post.entries@[i] == pre.entries@[i]);
                post.lemma_row_at(i);
            } else {
                if post.has_row(tp, u) {
                    let i = post.row_idx(tp, u);
                    assert(i != at);
                    assert(pre.entries@[i].topic@ == tp && pre.entries@[i].user@ == u);
                    assert(pre.has_row(tp, u));
                }
            }
        }
    }

    /// Appending a row for a pair the table does not hold leaves every
    /// other pair's stamp and payload as they were.
    proof fn lemma_row_push(pre: SignalTable, post: SignalTable)
        requires
            pre.wf(),
            post.entries@.len() == pre.entries@.len() + 1,
            forall|j: int| 0 <= j < pre.entries@.len() ==> post.entries@[j] == pre.entries@[j],
            !pre.has_row(post.entries@.last().topic@, post.entries@.last().user@),
        ensures
            post.wf(),
            post.stamp_of(post.entries@.last().topic@, post.entries@.last().user@) == Some(
                post.entries@.last().stamp,
            ),
            post.data_of(post.entries@.last().topic@, post.entries@.last().user@) == Some(
                post.entries@.last().data@,
            ),
            forall|tp: Seq<char>, u: Seq<char>|
                !(tp == post.entries@.last().topic@ && u == post.entries@.last().user@)
                    ==> post.stamp_of(tp, u) == pre.stamp_of(tp, u) && post.data_of(tp, u)
                    == pre.data_of(tp, u),
    {
        let at = pre.entries@.len() as int;
        assert forall|i: int, j: int|
            0 <= i < j < post.entries@.len() implies !(post.entries@[i].topic@
                == post.entries@[j].topic@ && post.entries@[i].user@
                == post.entries@[j].user@) by {
            if j == at {
                if post.entries@[i].topic@ == post.entries@[j].topic@ && post.entries@[i].user@
                    == post.entries@[j].user@ {
                    assert(pre.entries@[i].topic@ == post.entries@[at].topic@
                        && pre.entries@[i].user@ == post.entries@[at].user@);
                    assert(pre.has_row(post.entries@[at].topic@, post.entries@[at].user@));
                }
            } else {
                assert(post.entries@[i] == pre.entries@[i]);
                assert(post.entries@[j] == pre.entries@[j]);
            }
        }
        post.lemma_row_at(at);
        assert forall|tp: Seq<char>, u: Seq<char>|
            !(tp == post.entries@.last().topic@ && u == post.entries@.last().user@)
                implies post.stamp_of(tp, u) == pre.stamp_of(tp, u) && post.data_of(tp, u)
            == pre.data_of(tp, u) by {
            if pre.has_row(tp, u) {
                let i = pre.row_idx(tp, u);
                pre.lemma_row_at(i);
                assert(post.entries@[i] == pre.entries@[i]);
                post.lemma_row_at(i);
            } else {
                if post.has_row(tp, u) {
                    let i = post.row_idx(tp, u);
                    assert(i != at);
                    assert(pre.entries@[i].topic@ == tp && pre.entries@[i].user@ == u);
                    assert(pre.has_row(tp, u));
                }
            }
        }
    }

    /// Removing the pair's row leaves every other pair's stamp and
    /// payload as they were.
    proof fn lemma_row_remove(pre: SignalTable, post: SignalTable, at: int)
        requires
            pre.wf(),
            0 <= at < pre.entries@.len(),
            post.entries@ == pre.entries@.remove(at),
        ensures
            post.wf(),
            post.stamp_of(pre.entries@[at].topic@, pre.entries@[at].user@) == None::<u64>,
            post.data_of(pre.entries@[at].topic@, pre.entries@[at].user@) == None::<Seq<char>>,
            forall|tp: Seq<char>, u: Seq<char>|
                !(tp == pre.entries@[at].topic@ && u == pre.entries@[at].user@) ==> post.stamp_of(
                    tp,
                    u,
                ) == pre.stamp_of(tp, u) && post.data_of(tp, u) == pre.data_of(tp, u),
    {
        assert forall|i: int, j: int|
            0 <= i < j < post.entries@.len() implies !(post.entries@[i].topic@
                == post.entries@[j].topic@ && post.entries@[i].user@
                == post.entries@[j].user@) by {
            let pi: int = if i < at { i } else { i + 1 };
            let pj: int = if j < at { j } else { j + 1 };
            assert(post.entries@[i] == pre.entries@[pi]);
            assert(post.entries@[j] == pre.entries@[pj]);
        }
        assert forall|i: int|
            0 <= i < post.entries@.len() implies !(#[trigger] post.entries@[i].topic@
                == pre.entries@[at].topic@ && post.entries@[i].user@
                == pre.entries@[at].user@) by {
            let pi: int = if i < at { i } else { i + 1 };
            assert(post.entries@[i] == pre.entries@[pi]);
            if pi != at {
                if pi < at {
                    assert(!(pre.entries@[pi].topic@ == pre.entries@[at].topic@
                        && pre.entries@[pi].user@ == pre.entries@[at].user@));
                } else {
                    assert(!(pre.entries@[at].topic@ == pre.entries@[pi].topic@
                        && pre.entries@[at].user@ == pre.entries@[pi].user@));
                }
            }
        }
        assert(!post.has_row(pre.entries@[at].topic@, pre.entries@[at].user@));
        assert forall|tp: Seq<char>, u: Seq<char>|
            !(tp == pre.entries@[at].topic@ && u == pre.entries@[at].user@) implies post.stamp_of(
            tp,
            u,
        ) == pre.stamp_of(tp, u) && post.data_of(tp, u) == pre.data_of(tp, u) by {
            if pre.has_row(tp, u) {
                let i = pre.row_idx(tp, u);
                pre.lemma_row_at(i);
                assert(i != at);
                let i2: int = if i < at { i } else { i - 1 };
                assert(post.entries@[i2] == pre.entries@[i]);
                post.lemma_row_at(i2);
            } else {
                if post.has_row(tp, u) {
                    let i = post.row_idx(tp, u);
                    let pi: int = if i < at { i } else { i + 1 };
                    assert(post.entries@[i] == pre.entries@[pi]);
                    assert(pre.has_row(tp, u));
                }
            }
        }
    }

    /// Start (or refresh by re-starting): purges expired rows, then
    /// upserts a fresh row for the pair with the payload and `now`.
    /// Every other pair comes out exactly as the purge leaves it.
    pub fn start(&mut self, topic: &String, user: &String, data: String, now: u64)
        requires
            old(self).wf(),
        ensures
            final(self).wf(),
            final(self).expiry == old(self).expiry,
            final(self).stamp_of(topic@, user@) == Some(now),
            final(self).data_of(topic@, user@) == Some(data@),
            forall|tp: Seq<char>, u: Seq<char>|
                !(tp == topic@ && u == user@) ==> final(self).stamp_of(tp, u) == (if old(
                    self,
                ).listed(tp, u, now) {
                    old(self).stamp_of(tp, u)
                } else {
                    None::<u64>
                }),
            forall|tp: Seq<char>, u: Seq<char>|
                !(tp == topic@ && u == user@) ==> final(self).data_of(tp, u) == (if old(
                    self,
                ).listed(tp, u, now) {
                    old(self).data_of(tp, u)
                } else {
                    None::<Seq<char>>
                }),
    {
        self.purge(now);
        let ghost mid = *self;
        match self.find_row(topic, user) {
            Some(i) => {
                proof {
                    mid.lemma_row_at(i as int);
                }
                self.entries[i] = SignalEntry {
                    topic: topic.clone(),
                    user: user.clone(),
                    data,
                    stamp: now,
                };
                proof {
                    SignalTable::lemma_row_frame(mid, *self, i as int);
                }
            },
            None => {
                self.entries.push(
                    SignalEntry { topic: topic.clone(), user: user.clone(), data, stamp: now },
                );
                proof {
                    SignalTable::lemma_row_push(mid, *self);
                }
            },
        }
    }

    /// Stop: deletes the pair's row unconditionally and touches nothing
    /// else; stopping a pair without a row is a no-op, so the call is
    /// idempotent.
    pub fn stop(&mut self, topic: &String, user: &String)
        requires
            old(self).wf(),
        ensures
            final(self).wf(),
            final(self).expiry == old(self).expiry,
            final(self).stamp_of(topic@, user@) == None::<u64>,
            final(self).data_of(topic@, user@) == None::<Seq<char>>,
            forall|tp: Seq<char>, u: Seq<char>|
                !(tp == topic@ && u == user@) ==> final(self).stamp_of(tp, u) == old(
                    self,
                ).stamp_of(tp, u) && final(self).data_of(tp, u) == old(self).data_of(tp, u),
    {
        let ghost pre = *self;
        match self.find_row(topic, user) {
            Some(i) => {
                proof {
                    pre.lemma_row_at(i as int);
                }
                self.entries.remove(i);
                proof {
                    SignalTable::lemma_row_remove(pre, *self, i as int);
                }
            },
            None => {},
        }
    }

    /// Refresh: moves the pair's timestamp to `now` without recreating
    /// the row, keeping its payload; refreshing a pair without a row
    /// changes nothing.
    pub fn refresh(&mut self, topic: &String, user: &String, now: u64)
        requires
            old(self).wf(),
        ensures
            final(self).wf(),
            final(self).expiry == old(self).expiry,
            old(self).has_row(topic@, user@) ==> final(self).stamp_of(topic@, user@) == Some(now)
                && final(self).data_of(topic@, user@) == old(self).data_of(topic@, user@),
            !old(self).has_row(topic@, user@) ==> final(self).stamp_of(topic@, user@)
                == None::<u64> && final(self).data_of(topic@, user@) == None::<Seq<char>>,
            forall|tp: Seq<char>, u: Seq<char>|
                !(tp == topic@ && u == user@) ==> final(self).stamp_of(tp, u) == old(
                    self,
                ).stamp_of(tp, u) && final(self).data_of(tp, u) == old(self).data_of(tp, u),
    {
        let ghost pre = *self;
        match self.find_row(topic, user) {
            Some(i) => {
                proof {
                    pre.lemma_row_at(i as int);
                }
                self.entries[i].stamp = now;
                proof {
                    SignalTable::lemma_row_frame(pre, *self, i as int);
                }
            },
            None => {},
        }
    }

    /// List: purges expired rows, then returns the `(user, payload)`
    /// pairs of every row of the topic, each user once.  A pair is in
    /// the result exactly when its row was within the expiry window.
    #[verifier::loop_isolation(false)]
    pub fn list(&mut self, topic: &String, now: u64) -> (r: Vec<(String, String)>)
        requires
            old(self).wf(),
        ensures
            final(self).wf(),
            final(self).expiry == old(self).expiry,
            forall|tp: Seq<char>, u: Seq<char>|
                final(self).stamp_of(tp, u) == (if old(self).listed(tp, u, now) {
                    old(self).stamp_of(tp, u)
                } else {
                    None::<u64>
                }),
            forall|tp: Seq<char>, u: Seq<char>|
                final(self).data_of(tp, u) == (if old(self).listed(tp, u, now) {
                    old(self).data_of(tp, u)
                } else {
                    None::<Seq<char>>
                }),
            forall|k1: int, k2: int| 0 <= k1 < k2 < r@.len() ==> r@[k1].0@ != r@[k2].0@,
            forall|k: int|
                0 <= k < r@.len() ==> old(self).listed(topic@, #[trigger] r@[k].0@, now) && old(
                    self,
                ).data_of(topic@, r@[k].0@) == Some(r@[k].1@),
            forall|u: Seq<char>|
                old(self).listed(topic@, u, now) ==> exists|k: int|
                    0 <= k < r@.len() && #[trigger] r@[k].0@ == u,
    {
        let ghost pre = *self;
        self.purge(now);
        let ghost mid = *self;
        let mut out: Vec<(String, String)> = Vec::new();
        let n = self.entries.len();
        let mut i: usize = 0;
        let ghost mut idxs: Seq<int> = Seq::empty();
        while i < n
            invariant
                i <= n,
                n == self.entries@.len(),
                *self == mid,
                out@.len() == idxs.len(),
                forall|a: int, b: int| 0 <= a < b < idxs.len() ==> idxs[a] < idxs[b],
                forall|a: int|
                    0 <= a < idxs.len() ==> 0 <= #[trigger] idxs[a] < i && self.entries@[
                        idxs[a]
                    ].topic@ == topic@ && out@[a].0@ == self.entries@[idxs[a]].user@ && out@[a].1@
                        == self.entries@[idxs[a]].data@,
                forall|j: int|
                    0 <= j < i && self.entries@[j].topic@ == topic@ ==> exists|a: int|
                        0 <= a < idxs.len() && #[trigger] idxs[a] == j,
            decreases n - i,
        {
            if self.entries[i].topic == *topic {
                out.push((self.entries[i].user.clone(), self.entries[i].data.clone()));
                proof {
                    let idxs_old = idxs;
                    idxs = idxs.push(i as int);
                    assert forall|j: int|
                        0 <= j < i + 1 && self.entries@[j].topic@ == topic@ implies exists|a: int|
                        0 <= a < idxs.len() && #[trigger] idxs[a] == j by {
                        if j == i {
                            assert(idxs[idxs.len() - 1] == j);
                        } else {
                            let a = choose|a: int|
                                0 <= a < idxs_old.len() && #[trigger] idxs_old[a] == j;
                            assert(idxs[a] == j);
                        }
                    }
                }
            }
            i += 1;
        }
        proof {
            assert forall|k1: int, k2: int| 0 <= k1 < k2 < out@.len() implies out@[k1].0@
                != out@[k2].0@ by {
                assert(idxs[k1] < idxs[k2]);
                assert(!(mid.entries@[idxs[k1]].topic@ == mid.entries@[idxs[k2]].topic@
                    && mid.entries@[idxs[k1]].user@ == mid.entries@[idxs[k2]].user@));
            }
            assert forall|k: int|
                0 <= k < out@.len() implies pre.listed(topic@, #[trigger] out@[k].0@, now)
                && pre.data_of(topic@, out@[k].0@) == Some(out@[k].1@) by {
                let j = idxs[k];
                mid.lemma_row_at(j);
                assert(mid.stamp_of(topic@, out@[k].0@) == Some(mid.entries@[j].stamp));
                assert(mid.data_of(topic@, out@[k].0@) == Some(mid.entries@[j].data@));
                assert(pre.listed(topic@, out@[k].0@, now));
            }
            assert forall|u: Seq<char>| pre.listed(topic@, u, now) implies exists|k: int|
                0 <= k < out@.len() && #[trigger] out@[k].0@ == u by {
                assert(mid.stamp_of(topic@, u) == pre.stamp_of(topic@, u));
                assert(mid.has_row(topic@, u));
                let j = mid.row_idx(topic@, u);
                let a = choose|a: int| 0 <= a < idxs.len() && #[trigger] idxs[a] == j;
                assert(out@[a].0@ == u);
            }
        }
        out
    }
}

/// One client-visible operation on a single (topic, user) pair.
pub enum PairOp {
    Start(u64),
    Stop,
}

/// The pair's stamp after a sequence of operations, starting from no
/// row: each start stamps its own time, each stop clears the row, so
/// the last operation decides.  `SignalTable::start` and
/// `SignalTable::stop` make exactly these transitions on
/// `stamp_of` (the opportunistic purges in between only drop stamps
/// that `spec_listed` already ignores).
pub open spec fn spec_pair_stamp(ops: Seq<PairOp>) -> Option<u64> {
    if ops.len() == 0 {
        None
    } else {
        match ops.last() {
            PairOp::Start(t) => Some(t),
            PairOp::Stop => None,
        }
    }
}

/// Whether the most recent start among the ops lies within the expiry
/// window and no stop followed it.
pub open spec fn spec_recent_start_live(ops: Seq<PairOp>, expiry: u64, now: u64) -> bool {
    exists|k: int|
        0 <= k < ops.len() && (#[trigger] ops[k] matches PairOp::Start(t) && t + expiry >= now)
            && (forall|j: int| k < j < ops.len() ==> !(ops[j] is Start) && !(ops[j] is Stop))
}

/// For every sequence of `start` / `stop` calls on one (topic, user)
/// pair, the pair is listed at `now` exactly when its most recent
/// start lies within the expiry window and no stop followed it.
pub proof fn lemma_start_stop_listing(ops: Seq<PairOp>, expiry: u64, now: u64)
    ensures
        spec_listed(spec_pair_stamp(ops), expiry, now) <==> spec_recent_start_live(
            ops,
            expiry,
            now,
        ),
{
    if spec_listed(spec_pair_stamp(ops), expiry, now) {
        let k = ops.len() - 1 as int;
        assert(ops[k] matches PairOp::Start(t) && t + expiry >= now);
        assert(forall|j: int| k < j < ops.len() ==> !(ops[j] is Start) && !(ops[j] is Stop));
    }
    if spec_recent_start_live(ops, expiry, now) {
        let k = choose|k: int|
            0 <= k < ops.len() && (#[trigger] ops[k] matches PairOp::Start(t) && t + expiry
                >= now) && (forall|j: int|
                k < j < ops.len() ==> !(ops[j] is Start) && !(ops[j] is Stop));
        if k < ops.len() - 1 {
            assert(!(ops[k + 1] is Start) && !(ops[k + 1] is Stop));
            assert(ops[k + 1] is Start || ops[k + 1] is Stop);
            assert(false);
        }
        assert(k == ops.len() - 1);
        assert(spec_listed(spec_pair_stamp(ops), expiry, now));
    }
}

/// The same law for the stamp the table actually holds.  Between the
/// ops and the read, other calls may have purged the pair's row — but
/// a purge at time `tp` only drops a stamp already expired at `tp`,
/// and every purge happens no later than the read.  So whether `st` is
/// exactly what the last op left (`start` sets its time, `stop`
/// clears: see their contracts) or that stamp purged away, `list`
/// shows the pair at `now` exactly when its most recent start lies
/// within the window and no stop followed it.
pub proof fn lemma_start_stop_listing_in_table(
    ops: Seq<PairOp>,
    expiry: u64,
    now: u64,
    st: Option<u64>,
)
    requires
        st == spec_pair_stamp(ops) || (st is None && exists|tp: u64|
            tp <= now && !spec_listed(spec_pair_stamp(ops), expiry, tp)),
    ensures
        spec_listed(st, expiry, now) <==> spec_recent_start_live(ops, expiry, now),
{
    lemma_start_stop_listing(ops, expiry, now);
    if st != spec_pair_stamp(ops) {
        let tp = choose|tp: u64| tp <= now && !spec_listed(spec_pair_stamp(ops), expiry, tp);
        match spec_pair_stamp(ops) {
            Some(s) => {
                assert(s + expiry < tp);
                assert(!spec_listed(spec_pair_stamp(ops), expiry, now));
            },
            None => {},
        }
        assert(!spec_listed(st, expiry, now));
    }
}

} // verus!
