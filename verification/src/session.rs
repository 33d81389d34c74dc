//! Connection lifecycle decisions: admission on upgrade, inbound-event
//! relay, and teardown.  The socket itself lives with the caller, which
//! runs the two relay loops (outbound: `Hub::recv` to the socket;
//! inbound: parsed events into `handle_inbound`) and calls `connect` /
//! `disconnect` at the edges.

use vstd::prelude::*;

use crate::event::{rewrite_inbound, spec_rewrite_inbound, Event};
use crate::hub::{spec_push_bounded, Hub};

verus! {

/// The query string of a stream upgrade: which topic to join, as
/// which identity (already authenticated upstream).
pub struct WsQuery {
    pub channel: String,
    pub user: String,
}

/// What `connect` established for one socket: the topic it is bound to
/// for its whole lifetime, the caller identity, and the subscriber id
/// inside the hub.
pub struct Session {
    pub topic: String,
    pub identity: String,
    pub sub: u64,
}

/// The upgrade path: admits the identity against its connection budget
/// (refusing with `None`, which the caller surfaces as a rejected
/// upgrade), subscribes it to the topic, and announces the join to
/// every subscriber, the new one included.  A refused connect leaves
/// the hub exactly as it was.
pub fn connect(hub: &mut Hub, topic: &String, identity: &String, now: u64) -> (r: Option<Session>)
    requires
        old(hub).wf(),
        old(hub).next_sub < u64::MAX,
    ensures
        final(hub).wf(),
        r is Some <==> old(hub).budget_of(identity@) < old(hub).cap,
        final(hub).cap == old(hub).cap,
        final(hub).capacity == old(hub).capacity,
        match r {
            Some(sess) => {
                &&& sess.topic@ == topic@
                &&& sess.identity@ == identity@
                &&& sess.sub == old(hub).next_sub
                &&& final(hub).budget_of(identity@) == old(hub).budget_of(identity@) + 1
                &&& final(hub).queue_of(topic@, sess.sub) == Some(
                    seq![Event::UserJoined { user: *identity }],
                )
                &&& final(hub).subs_of(topic@) == Some(
                    match old(hub).subs_of(topic@) {
                        Some(s) => s.push((sess.sub, identity@)),
                        None => seq![(sess.sub, identity@)],
                    },
                )
                &&& forall|sid: u64|
                    old(hub).has_sub(topic@, sid) ==> final(hub).queue_of(topic@, sid) == Some(
                        spec_push_bounded(
                            old(hub).queue_of(topic@, sid).unwrap(),
                            Event::UserJoined { user: *identity },
                            old(hub).capacity as nat,
                        ),
                    )
                &&& forall|n: Seq<char>| n != topic@ ==> final(hub).subs_of(n) == old(
                    hub,
                ).subs_of(n)
                &&& forall|n: Seq<char>, sid: u64|
                    n != topic@ ==> final(hub).queue_of(n, sid) == old(hub).queue_of(n, sid)
                &&& forall|id: Seq<char>|
                    id != identity@ ==> final(hub).budget_of(id) == old(hub).budget_of(id)
            },
            None => {
                &&& final(hub).topics == old(hub).topics
                &&& forall|id: Seq<char>| final(hub).budget_of(id) == old(hub).budget_of(id)
            },
        },
{
    let ghost h0 = *hub;
    if !hub.track_connection(identity, now) {
        return None;
    }
    let ghost ha = *hub;
    let sub = hub.subscribe(topic, identity);
    let ghost h1 = *hub;
    let joined = Event::UserJoined { user: identity.clone() };
    hub.publish(topic, &joined);
    proof {
        Hub::lemma_same_topics(h0, ha);
        assert(joined == Event::UserJoined { user: *identity });
        assert(h1.has_sub(topic@, sub)) by {
            assert(h1.queue_of(topic@, sub) == Some(Seq::<Event>::empty()));
        }
        assert(hub.queue_of(topic@, sub) == Some(
            spec_push_bounded(Seq::<Event>::empty(), joined, h1.capacity as nat),
        ));
        assert(spec_push_bounded(Seq::<Event>::empty(), joined, h1.capacity as nat) =~= seq![
            Event::UserJoined { user: *identity },
        ]);
        assert forall|sid: u64| h0.has_sub(topic@, sid) implies hub.queue_of(topic@, sid) == Some(
            spec_push_bounded(
                h0.queue_of(topic@, sid).unwrap(),
                Event::UserJoined { user: *identity },
                h0.capacity as nat,
            ),
        ) by {
            assert(ha.has_sub(topic@, sid) == h0.has_sub(topic@, sid));
            assert(ha.queue_of(topic@, sid) == h0.queue_of(topic@, sid));
            let t = ha.sub_idx(topic@, sid);
            assert(sid < ha.next_sub);
            assert(sid != sub);
            assert(h1.queue_of(topic@, sid) == ha.queue_of(topic@, sid));
            assert(h1.has_sub(topic@, sid)) by {
                assert(h1.queue_of(topic@, sid) is Some);
            }
            assert(hub.queue_of(topic@, sid) == Some(
                spec_push_bounded(
                    h1.queue_of(topic@, sid).unwrap(),
                    joined,
                    h1.capacity as nat,
                ),
            ));
        }
        assert(hub.subs_of(topic@) == h1.subs_of(topic@));
        assert forall|n: Seq<char>, sid: u64| n != topic@ implies hub.queue_of(n, sid)
            == h0.queue_of(n, sid) by {
            assert(ha.queue_of(n, sid) == h0.queue_of(n, sid));
            assert(h1.queue_of(n, sid) == ha.queue_of(n, sid));
            assert(hub.queue_of(n, sid) == h1.queue_of(n, sid));
        }
        assert forall|n: Seq<char>| n != topic@ implies hub.subs_of(n) == h0.subs_of(n) by {
            assert(ha.subs_of(n) == h0.subs_of(n));
            assert(h1.subs_of(n) == ha.subs_of(n));
            assert(hub.subs_of(n) == h1.subs_of(n));
        }
    }
    Some(Session { topic: topic.clone(), identity: identity.clone(), sub })
}

/// The inbound half of the relay: applies the voice rewrite rules and
/// republishes to the session's topic.  A consumed event (a heartbeat)
/// leaves the hub untouched; everything else reaches the buffer of
/// every current subscriber of the topic and of no other topic.
pub fn handle_inbound(hub: &mut Hub, sess: &Session, ev: Event)
    requires
        old(hub).wf(),
    ensures
        final(hub).wf(),
        final(hub).cap == old(hub).cap,
        final(hub).capacity == old(hub).capacity,
        final(hub).next_sub == old(hub).next_sub,
        final(hub).budgets == old(hub).budgets,
        forall|n: Seq<char>| final(hub).subs_of(n) == old(hub).subs_of(n),
        match spec_rewrite_inbound(ev) {
            None => final(hub).topics == old(hub).topics,
            Some(out) => {
                &&& forall|sid: u64|
                    old(hub).has_sub(sess.topic@, sid) ==> final(hub).queue_of(sess.topic@, sid)
                        == Some(
                        spec_push_bounded(
                            old(hub).queue_of(sess.topic@, sid).unwrap(),
                            out,
                            old(hub).capacity as nat,
                        ),
                    )
                &&& forall|sid: u64|
                    !old(hub).has_sub(sess.topic@, sid) ==> final(hub).queue_of(sess.topic@, sid)
                        == None::<Seq<Event>>
                &&& forall|n: Seq<char>, sid: u64|
                    n != sess.topic@ ==> final(hub).queue_of(n, sid) == old(hub).queue_of(n, sid)
            },
        },
{
    match rewrite_inbound(ev) {
        None => {},
        Some(out) => {
            hub.publish(&sess.topic, &out);
        },
    }
}

/// Teardown: drops the subscription, announces the leave to the
/// remaining subscribers of the topic, and gives the identity its
/// budget slot back.
pub fn disconnect(hub: &mut Hub, sess: Session, now: u64)
    requires
        old(hub).wf(),
    ensures
        final(hub).wf(),
        final(hub).cap == old(hub).cap,
        final(hub).capacity == old(hub).capacity,
        final(hub).queue_of(sess.topic@, sess.sub) == None::<Seq<Event>>,
        final(hub).subs_of(sess.topic@) == if old(hub).has_sub(sess.topic@, sess.sub) {
            Some(
                old(hub).subs_of(sess.topic@).unwrap().remove(
                    old(hub).sub_idx(sess.topic@, sess.sub),
                ),
            )
        } else {
            old(hub).subs_of(sess.topic@)
        },
        forall|sid: u64|
            sid != sess.sub && old(hub).has_sub(sess.topic@, sid) ==> final(hub).queue_of(
                sess.topic@,
                sid,
            ) == Some(
                spec_push_bounded(
                    old(hub).queue_of(sess.topic@, sid).unwrap(),
                    Event::UserLeft { user: sess.identity },
                    old(hub).capacity as nat,
                ),
            ),
        final(hub).budget_of(sess.identity@) == if old(hub).budget_of(sess.identity@) > 0 {
            (old(hub).budget_of(sess.identity@) - 1) as nat
        } else {
            0nat
        },
        forall|id: Seq<char>|
            id != sess.identity@ ==> final(hub).budget_of(id) == old(hub).budget_of(id),
        forall|n: Seq<char>| n != sess.topic@ ==> final(hub).subs_of(n) == old(hub).subs_of(n),
        forall|n: Seq<char>, sid: u64|
            n != sess.topic@ ==> final(hub).queue_of(n, sid) == old(hub).queue_of(n, sid),
{
    let ghost h0 = *hub;
    let Session { topic, identity, sub } = sess;
    hub.unsubscribe(&topic, sub);
    let ghost h1 = *hub;
    let left = Event::UserLeft { user: identity.clone() };
    hub.publish(&topic, &left);
    let ghost h2 = *hub;
    hub.untrack_connection(&identity, now);
    proof {
        assert(left == Event::UserLeft { user: identity });
        assert(hub.topics == h2.topics);
        Hub::lemma_same_topics(h2, *hub);
        assert forall|n: Seq<char>, sid: u64| n != topic@ implies hub.queue_of(n, sid)
            == h0.queue_of(n, sid) by {
            assert(h1.queue_of(n, sid) == h0.queue_of(n, sid));
            assert(h2.queue_of(n, sid) == h1.queue_of(n, sid));
            assert(hub.queue_of(n, sid) == h2.queue_of(n, sid));
        }
        assert forall|n: Seq<char>| n != topic@ implies hub.subs_of(n) == h0.subs_of(n) by {
            assert(h1.subs_of(n) == h0.subs_of(n));
            assert(h2.subs_of(n) == h1.subs_of(n));
            assert(hub.subs_of(n) == h2.subs_of(n));
        }
        assert forall|sid: u64|
            sid != sub && h0.has_sub(topic@, sid) implies hub.queue_of(topic@, sid) == Some(
            spec_push_bounded(
                h0.queue_of(topic@, sid).unwrap(),
                Event::UserLeft { user: identity },
                h0.capacity as nat,
            ),
        ) by {
            assert(h1.queue_of(topic@, sid) == h0.queue_of(topic@, sid));
            assert(h1.has_sub(topic@, sid)) by {
                assert(h1.queue_of(topic@, sid) is Some);
            }
            assert(h2.queue_of(topic@, sid) == Some(
                spec_push_bounded(
                    h1.queue_of(topic@, sid).unwrap(),
                    left,
                    h1.capacity as nat,
                ),
            ));
            assert(hub.queue_of(topic@, sid) == h2.queue_of(topic@, sid));
        }
        assert(hub.queue_of(topic@, sub) == h2.queue_of(topic@, sub));
        assert(h2.queue_of(topic@, sub) == h1.queue_of(topic@, sub)
            || h2.queue_of(topic@, sub) is None) by {
            if h1.has_sub(topic@, sub) {
            }
        }
        assert(h1.queue_of(topic@, sub) == None::<Seq<Event>>);
        assert(!h1.has_sub(topic@, sub));
        assert(h2.queue_of(topic@, sub) == None::<Seq<Event>>);
        assert(hub.subs_of(topic@) == h2.subs_of(topic@));
        assert(h2.subs_of(topic@) == h1.subs_of(topic@));
    }
}

} // verus!
