//! Voice-session read shaping: grouping the live sessions of a guild
//! by voice channel.  The sessions themselves live in a
//! `SignalTable` with the voice expiry window (join starts a row with
//! the peer id as payload, leave stops it, the heartbeat refreshes
//! it); this module shapes a store read for the roster endpoint.
//!
//! A roster row is (channel, user id, username, session timestamp),
//! ordered by timestamp as the store hands them out.  Rows older than
//! the voice window are never returned, whether or not a purge has
//! already deleted them: the purge is best effort, the window is not.

use vstd::prelude::*;

use crate::ephemeral::VOICE_EXPIRY_SECS;

verus! {

/// One user in a voice channel.
#[derive(Debug)]
pub struct VoiceUser {
    pub id: String,
    pub username: String,
}

/// A voice channel and everyone currently in it.
#[derive(Debug)]
pub struct VoiceChannelUsers {
    pub channel_id: String,
    pub users: Vec<VoiceUser>,
}

/// The body of a join-voice call: the caller's peer id.
#[derive(Debug)]
pub struct JoinVoiceRequest {
    pub peer_id: String,
}

/// The body of a leave-voice call; the token lets a page-unload
/// beacon authenticate without headers.
#[derive(Debug)]
pub struct LeaveVoiceRequest {
    pub token: Option<String>,
}

/// Whether a session row is still live at `now`: its timestamp lies
/// within the voice expiry window.
pub open spec fn spec_row_live(row: (String, String, String, u64), now: u64) -> bool {
    row.3 + VOICE_EXPIRY_SECS >= now
}

/// The users of channel `c` among the rows `i ..` that are live at
/// `now`, in row order; each row is (channel, user id, username,
/// timestamp).
pub open spec fn spec_channel_users(
    rows: Seq<(String, String, String, u64)>,
    c: Seq<char>,
    now: u64,
    i: int,
) -> Seq<(Seq<char>, Seq<char>)>
    decreases rows.len() - i,
{
    if i < 0 || i >= rows.len() {
        Seq::empty()
    } else if rows[i].0@ == c && spec_row_live(rows[i], now) {
        seq![(rows[i].1@, rows[i].2@)] + spec_channel_users(rows, c, now, i + 1)
    } else {
        spec_channel_users(rows, c, now, i + 1)
    }
}

/// The users a grouped roster lists for channel `c`: those of its
/// entry, or none when no entry names `c`.
pub open spec fn spec_grouped_users(out: Seq<VoiceChannelUsers>, c: Seq<char>) -> Seq<
    (Seq<char>, Seq<char>),
> {
    if exists|k: int| 0 <= k < out.len() && #[trigger] out[k].channel_id@ == c {
        let k = choose|k: int| 0 <= k < out.len() && #[trigger] out[k].channel_id@ == c;
        out[k].users@.map_values(|u: VoiceUser| (u.id@, u.username@))
    } else {
        Seq::empty()
    }
}

/// Whether the roster has an entry for channel `c`.
pub open spec fn spec_covers(out: Seq<VoiceChannelUsers>, c: Seq<char>) -> bool {
    exists|k: int| 0 <= k < out.len() && #[trigger] out[k].channel_id@ == c
}

/// Whether some row live at `now` names channel `c`.
pub open spec fn spec_live_source(
    rows: Seq<(String, String, String, u64)>,
    c: Seq<char>,
    now: u64,
) -> bool {
    exists|j: int|
        0 <= j < rows.len() && #[trigger] rows[j].0@ == c && spec_row_live(rows[j], now)
}

/// With distinct channels, entry `at` is the one its channel finds.
proof fn lemma_grouped_at(out: Seq<VoiceChannelUsers>, at: int)
    requires
        forall|k1: int, k2: int| 0 <= k1 < k2 < out.len() ==> out[k1].channel_id@
            != out[k2].channel_id@,
        0 <= at < out.len(),
    ensures
        spec_grouped_users(out, out[at].channel_id@) == out[at].users@.map_values(
            |u: VoiceUser| (u.id@, u.username@),
        ),
{
    let c = out[at].channel_id@;
    assert(out[at].channel_id@ == c);
    let k = choose|k: int| 0 <= k < out.len() && #[trigger] out[k].channel_id@ == c;
    if k != at {
        if k < at {
            assert(out[k].channel_id@ != out[at].channel_id@);
        } else {
            assert(out[at].channel_id@ != out[k].channel_id@);
        }
    }
}

/// Two distinct-channeled rosters that agree entry for entry except
/// for one entry's user list — whose channel they share — list the
/// same users for every other channel.
proof fn lemma_grouped_frame(
    pre: Seq<VoiceChannelUsers>,
    post: Seq<VoiceChannelUsers>,
    at: int,
    c: Seq<char>,
)
    requires
        forall|k1: int, k2: int| 0 <= k1 < k2 < pre.len() ==> pre[k1].channel_id@
            != pre[k2].channel_id@,
        0 <= at < pre.len(),
        post.len() == pre.len(),
        forall|k: int| 0 <= k < pre.len() ==> post[k].channel_id@ == pre[k].channel_id@,
        forall|k: int| 0 <= k < pre.len() && k != at ==> post[k] == pre[k],
        c != pre[at].channel_id@,
    ensures
        spec_grouped_users(post, c) == spec_grouped_users(pre, c),
{
    if exists|k: int| 0 <= k < pre.len() && #[trigger] pre[k].channel_id@ == c {
        let i = choose|k: int| 0 <= k < pre.len() && #[trigger] pre[k].channel_id@ == c;
        assert(post[i].channel_id@ == c);
        let k = choose|k: int| 0 <= k < post.len() && #[trigger] post[k].channel_id@ == c;
        assert(pre[k].channel_id@ == c);
        if k != i {
            if k < i {
                assert(pre[k].channel_id@ != pre[i].channel_id@);
            } else {
                assert(pre[i].channel_id@ != pre[k].channel_id@);
            }
        }
        assert(k == i && i != at);
        assert(post[i] == pre[i]);
    } else {
        assert forall|k: int| 0 <= k < post.len() implies #[trigger] post[k].channel_id@ != c by {
            assert(pre[k].channel_id@ != c);
        }
    }
}

/// Groups the live voice-session rows by channel: one entry per
/// channel with a session inside the expiry window, holding exactly
/// its live rows' users in row order.  Expired rows are never
/// returned, and no entry appears for a channel without a live row —
/// so a channel of another guild, absent from the rows, cannot appear
/// either.
#[verifier::loop_isolation(false)]
pub fn get_guild_voice_users(rows: &Vec<(String, String, String, u64)>, now: u64) -> (r: Vec<
    VoiceChannelUsers,
>)
    ensures
        forall|k1: int, k2: int| 0 <= k1 < k2 < r@.len() ==> r@[k1].channel_id@
            != r@[k2].channel_id@,
        forall|c: Seq<char>| spec_grouped_users(r@, c) == spec_channel_users(rows@, c, now, 0),
        forall|j: int|
            0 <= j < rows@.len() && spec_row_live(rows@[j], now) ==> spec_covers(
                r@,
                #[trigger] rows@[j].0@,
            ),
        forall|k: int|
            0 <= k < r@.len() ==> spec_live_source(rows@, #[trigger] r@[k].channel_id@, now),
{
    let mut out: Vec<VoiceChannelUsers> = Vec::new();
    let n = rows.len();
    let mut i: usize = 0;
    while i < n
        invariant
            i <= n,
            n == rows@.len(),
            forall|k1: int, k2: int| 0 <= k1 < k2 < out@.len() ==> out@[k1].channel_id@
                != out@[k2].channel_id@,
            forall|c: Seq<char>|
                spec_grouped_users(out@, c) + spec_channel_users(rows@, c, now, i as int)
                    == spec_channel_users(rows@, c, now, 0),
            forall|j: int|
                0 <= j < i && spec_row_live(rows@[j], now) ==> spec_covers(
                    out@,
                    #[trigger] rows@[j].0@,
                ),
            forall|k: int|
                0 <= k < out@.len() ==> spec_live_source(rows@, #[trigger] out@[k].channel_id@, now),
        decreases n - i,
    {
        let live = rows[i].3 >= now || now - rows[i].3 <= VOICE_EXPIRY_SECS;
        if !live {
            proof {
                assert(!spec_row_live(rows@[i as int], now));
                assert forall|c: Seq<char>|
                    spec_channel_users(rows@, c, now, i + 1) == spec_channel_users(
                        rows@,
                        c,
                        now,
                        i as int,
                    ) by {}
            }
            i += 1;
            continue ;
        }
        proof {
            assert(spec_row_live(rows@[i as int], now));
        }
        let ghost pre = out@;
        let ghost c0 = rows@[i as int].0@;
        let user = VoiceUser { id: rows[i].1.clone(), username: rows[i].2.clone() };
        let m = out.len();
        let mut k: usize = 0;
        let mut found = false;
        while k < m && !found
            invariant
                k <= m,
                m == out@.len(),
                out@ == pre,
                found ==> k < m && out@[k as int].channel_id@ == c0,
                !found ==> forall|x: int| 0 <= x < k ==> out@[x].channel_id@ != c0,
            decreases 2 * (m - k) + (if found {
                0int
            } else {
                1int
            }),
        {
            if out[k].channel_id == rows[i].0 {
                found = true;
            } else {
                k += 1;
            }
        }
        if found {
            proof {
                lemma_grouped_at(pre, k as int);
            }
            out[k].users.push(user);
            proof {
                assert forall|c: Seq<char>|
                    spec_grouped_users(out@, c) + spec_channel_users(rows@, c, now, i + 1)
                        == spec_channel_users(rows@, c, now, 0) by {
                    if c == c0 {
                        lemma_grouped_at(out@, k as int);
                        assert(out@[k as int].users@.map_values(
                            |u: VoiceUser| (u.id@, u.username@),
                        ) =~= pre[k as int].users@.map_values(|u: VoiceUser| (u.id@, u.username@))
                            + seq![(rows@[i as int].1@, rows@[i as int].2@)]);
                        assert((spec_grouped_users(pre, c) + seq![
                            (rows@[i as int].1@, rows@[i as int].2@),
                        ]) + spec_channel_users(rows@, c, now, i + 1) =~= spec_grouped_users(
                            pre,
                            c,
                        ) + (seq![(rows@[i as int].1@, rows@[i as int].2@)] + spec_channel_users(
                            rows@,
                            c,
                            now,
                            i + 1,
                        )));
                    } else {
                        lemma_grouped_frame(pre, out@, k as int, c);
                    }
                }
                assert forall|j: int|
                    0 <= j < i + 1 && spec_row_live(rows@[j], now) implies spec_covers(
                    out@,
                    #[trigger] rows@[j].0@,
                ) by {
                    if j == i {
                        assert(out@[k as int].channel_id@ == rows@[j].0@);
                    } else {
                        assert(spec_covers(pre, rows@[j].0@));
                        let k2 = choose|k2: int|
                            0 <= k2 < pre.len() && #[trigger] pre[k2].channel_id@ == rows@[j].0@;
                        assert(out@[k2].channel_id@ == rows@[j].0@);
                    }
                }
                assert forall|x: int|
                    0 <= x < out@.len() implies spec_live_source(
                    rows@,
                    #[trigger] out@[x].channel_id@,
                    now,
                ) by {
                    assert(out@[x].channel_id@ == pre[x].channel_id@);
                    assert(spec_live_source(rows@, pre[x].channel_id@, now));
                }
            }
        } else {
            out.push(VoiceChannelUsers { channel_id: rows[i].0.clone(), users: vec![user] });
            proof {
                let at = pre.len() as int;
                assert forall|k1: int, k2: int|
                    0 <= k1 < k2 < out@.len() implies out@[k1].channel_id@
                    != out@[k2].channel_id@ by {
                    if k2 == at {
                        assert(pre[k1].channel_id@ != c0);
                    }
                }
                assert forall|c: Seq<char>|
                    spec_grouped_users(out@, c) + spec_channel_users(rows@, c, now, i + 1)
                        == spec_channel_users(rows@, c, now, 0) by {
                    if c == c0 {
                        assert(spec_grouped_users(pre, c) =~= Seq::<(Seq<char>, Seq<char>)>::empty())
                            by {
                            if exists|x: int|
                                0 <= x < pre.len() && #[trigger] pre[x].channel_id@ == c {
                                let x = choose|x: int|
                                    0 <= x < pre.len() && #[trigger] pre[x].channel_id@ == c;
                                assert(false);
                            }
                        }
                        assert(out@[at].channel_id@ == c);
                        let k2 = choose|x: int|
                            0 <= x < out@.len() && #[trigger] out@[x].channel_id@ == c;
                        if k2 != at {
                            assert(pre[k2].channel_id@ == c);
                            assert(false);
                        }
                        assert(spec_grouped_users(out@, c) =~= seq![
                            (rows@[i as int].1@, rows@[i as int].2@),
                        ]);
                        assert(seq![(rows@[i as int].1@, rows@[i as int].2@)]
                            + spec_channel_users(rows@, c, now, i + 1) =~= spec_channel_users(
                            rows@,
                            c,
                            now,
                            i as int,
                        ));
                        assert(Seq::<(Seq<char>, Seq<char>)>::empty() + spec_channel_users(
                            rows@,
                            c,
                            now,
                            i as int,
                        ) =~= spec_channel_users(rows@, c, now, i as int));
                    } else {
                        assert(spec_grouped_users(out@, c) == spec_grouped_users(pre, c)) by {
                            if exists|x: int|
                                0 <= x < pre.len() && #[trigger] pre[x].channel_id@ == c {
                                let x = choose|x: int|
                                    0 <= x < pre.len() && #[trigger] pre[x].channel_id@ == c;
                                assert(out@[x].channel_id@ == c);
                                let y = choose|x2: int|
                                    0 <= x2 < out@.len() && #[trigger] out@[x2].channel_id@ == c;
                                assert(y != at);
                                assert(pre[y].channel_id@ == c);
                                if y != x {
                                    if y < x {
                                        assert(pre[y].channel_id@ != pre[x].channel_id@);
                                    } else {
                                        assert(pre[x].channel_id@ != pre[y].channel_id@);
                                    }
                                }
                                assert(out@[x] == pre[x]);
                            } else {
                                assert forall|x: int|
                                    0 <= x < out@.len() implies #[trigger] out@[x].channel_id@
                                    != c by {
                                    if x < at {
                                        assert(pre[x].channel_id@ != c);
                                    }
                                }
                            }
                        }
                    }
                }
                assert forall|j: int|
                    0 <= j < i + 1 && spec_row_live(rows@[j], now) implies spec_covers(
                    out@,
                    #[trigger] rows@[j].0@,
                ) by {
                    if j == i {
                        assert(out@[at].channel_id@ == rows@[j].0@);
                    } else {
                        assert(spec_covers(pre, rows@[j].0@));
                        let k2 = choose|k2: int|
                            0 <= k2 < pre.len() && #[trigger] pre[k2].channel_id@ == rows@[j].0@;
                        assert(out@[k2].channel_id@ == rows@[j].0@);
                    }
                }
                assert forall|x: int|
                    0 <= x < out@.len() implies spec_live_source(
                    rows@,
                    #[trigger] out@[x].channel_id@,
                    now,
                ) by {
                    if x < at {
                        assert(out@[x].channel_id@ == pre[x].channel_id@);
                        assert(spec_live_source(rows@, pre[x].channel_id@, now));
                    } else {
                        assert(rows@[i as int].0@ == out@[at].channel_id@);
                        assert(spec_row_live(rows@[i as int], now));
                    }
                }
            }
        }
        i += 1;
    }
    proof {
        assert forall|c: Seq<char>| spec_grouped_users(out@, c) == spec_channel_users(
            rows@,
            c,
            now,
            0,
        ) by {
            assert(spec_channel_users(rows@, c, now, n as int) =~= Seq::<
                (Seq<char>, Seq<char>),
            >::empty());
            assert(spec_grouped_users(out@, c) + Seq::<(Seq<char>, Seq<char>)>::empty()
                =~= spec_grouped_users(out@, c));
        }
    }
    out
}

} // verus!
