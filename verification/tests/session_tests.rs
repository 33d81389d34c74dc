use wryft_live::event::{rewrite_inbound, Event};
use wryft_live::hub::Hub;
use wryft_live::session::{connect, disconnect, handle_inbound};

fn drain(hub: &mut Hub, topic: &String, sid: u64) {
    while hub.recv(topic, sid).is_some() {}
}

#[test]
fn heartbeats_are_consumed() {
    let e = Event::VoiceHeartbeat { channel_id: "c1".to_string(), peer_id: "p1".to_string() };
    assert_eq!(rewrite_inbound(e), None);
}

#[test]
fn voice_join_is_rewritten_for_fanout() {
    let e = Event::VoiceJoin {
        channel_id: "c1".to_string(),
        peer_id: "p1".to_string(),
        username: "bob".to_string(),
    };
    assert_eq!(
        rewrite_inbound(e),
        Some(Event::VoiceUserJoined {
            peer_id: "p1".to_string(),
            username: "bob".to_string(),
            channel_id: "c1".to_string(),
        })
    );
}

#[test]
fn voice_leave_is_rewritten_for_fanout() {
    let e = Event::VoiceLeave { channel_id: "c1".to_string(), peer_id: "p1".to_string() };
    assert_eq!(
        rewrite_inbound(e),
        Some(Event::VoiceUserLeft { peer_id: "p1".to_string(), channel_id: "c1".to_string() })
    );
}

#[test]
fn ordinary_events_pass_through_verbatim() {
    let e = Event::Typing { channel: "c1".to_string(), user: "alice".to_string() };
    assert_eq!(rewrite_inbound(e.clone()), Some(e));
    let o = Event::VoiceOffer {
        channel_id: "c1".to_string(),
        target_peer_id: "p2".to_string(),
        peer_id: "p1".to_string(),
        offer: "sdp".to_string(),
    };
    assert_eq!(rewrite_inbound(o.clone()), Some(o));
}

#[test]
fn connect_announces_the_join() {
    let mut hub = Hub::new();
    let topic = "c1".to_string();
    let alice = connect(&mut hub, &topic, &"alice".to_string(), 0).unwrap();
    assert_eq!(
        hub.recv(&topic, alice.sub),
        Some(Event::UserJoined { user: "alice".to_string() })
    );
    let bob = connect(&mut hub, &topic, &"bob".to_string(), 0).unwrap();
    // alice hears bob's join; bob hears his own
    assert_eq!(
        hub.recv(&topic, alice.sub),
        Some(Event::UserJoined { user: "bob".to_string() })
    );
    assert_eq!(
        hub.recv(&topic, bob.sub),
        Some(Event::UserJoined { user: "bob".to_string() })
    );
}

#[test]
fn sixth_connect_is_refused_until_one_closes() {
    let mut hub = Hub::new();
    let topic = "c1".to_string();
    let u = "alice".to_string();
    let mut sessions = Vec::new();
    for _ in 0..5 {
        sessions.push(connect(&mut hub, &topic, &u, 0).expect("within budget"));
    }
    assert!(connect(&mut hub, &topic, &u, 0).is_none());
    disconnect(&mut hub, sessions.remove(0), 1);
    assert!(connect(&mut hub, &topic, &u, 1).is_some());
}

#[test]
fn voice_join_reaches_the_other_subscribers() {
    let mut hub = Hub::new();
    let topic = "c1".to_string();
    let alice = connect(&mut hub, &topic, &"alice".to_string(), 0).unwrap();
    let bob = connect(&mut hub, &topic, &"bob".to_string(), 0).unwrap();
    drain(&mut hub, &topic, alice.sub);
    drain(&mut hub, &topic, bob.sub);
    handle_inbound(
        &mut hub,
        &bob,
        Event::VoiceJoin {
            channel_id: "c1".to_string(),
            peer_id: "p1".to_string(),
            username: "bob".to_string(),
        },
    );
    assert_eq!(
        hub.recv(&topic, alice.sub),
        Some(Event::VoiceUserJoined {
            peer_id: "p1".to_string(),
            username: "bob".to_string(),
            channel_id: "c1".to_string(),
        })
    );
}

#[test]
fn heartbeats_are_never_rebroadcast() {
    let mut hub = Hub::new();
    let topic = "c1".to_string();
    let alice = connect(&mut hub, &topic, &"alice".to_string(), 0).unwrap();
    let bob = connect(&mut hub, &topic, &"bob".to_string(), 0).unwrap();
    drain(&mut hub, &topic, alice.sub);
    drain(&mut hub, &topic, bob.sub);
    handle_inbound(
        &mut hub,
        &bob,
        Event::VoiceHeartbeat { channel_id: "c1".to_string(), peer_id: "p1".to_string() },
    );
    assert_eq!(hub.recv(&topic, alice.sub), None);
    assert_eq!(hub.recv(&topic, bob.sub), None);
}

#[test]
fn disconnect_announces_the_leave_and_frees_the_slot() {
    let mut hub = Hub::new();
    let topic = "c1".to_string();
    let alice = connect(&mut hub, &topic, &"alice".to_string(), 0).unwrap();
    let bob = connect(&mut hub, &topic, &"bob".to_string(), 0).unwrap();
    drain(&mut hub, &topic, alice.sub);
    let bob_sub = bob.sub;
    disconnect(&mut hub, bob, 1);
    assert_eq!(
        hub.recv(&topic, alice.sub),
        Some(Event::UserLeft { user: "bob".to_string() })
    );
    // bob's own buffer is gone with the subscription
    assert_eq!(hub.recv(&topic, bob_sub), None);
}
