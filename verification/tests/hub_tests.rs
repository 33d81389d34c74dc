use wryft_live::event::Event;
use wryft_live::hub::Hub;

fn msg(text: &str) -> Event {
    Event::Message {
        id: text.to_string(),
        channel: "c".to_string(),
        content: text.to_string(),
        author: "a".to_string(),
        timestamp: "t".to_string(),
    }
}

#[test]
fn sixth_connection_of_an_identity_is_refused() {
    let mut hub = Hub::new();
    let u = "alice".to_string();
    for _ in 0..5 {
        assert!(hub.track_connection(&u, 0));
    }
    assert!(!hub.track_connection(&u, 0));
    // closing one connection permits exactly one more admission
    hub.untrack_connection(&u, 1);
    assert!(hub.track_connection(&u, 1));
    assert!(!hub.track_connection(&u, 1));
}

#[test]
fn budgets_are_per_identity() {
    let mut hub = Hub::with_limits(1, 100);
    assert!(hub.track_connection(&"a".to_string(), 0));
    assert!(!hub.track_connection(&"a".to_string(), 0));
    assert!(hub.track_connection(&"b".to_string(), 0));
}

#[test]
fn releasing_an_unknown_identity_is_harmless() {
    let mut hub = Hub::new();
    hub.untrack_connection(&"ghost".to_string(), 0);
    assert!(hub.track_connection(&"ghost".to_string(), 0));
}

#[test]
fn fanout_delivers_in_publish_order_to_topic_subscribers_only() {
    let mut hub = Hub::new();
    let t = "t".to_string();
    let other = "other".to_string();
    let s1 = hub.subscribe(&t, &"alice".to_string());
    let s2 = hub.subscribe(&t, &"bob".to_string());
    let s3 = hub.subscribe(&other, &"carol".to_string());
    hub.publish(&t, &msg("one"));
    hub.publish(&t, &msg("two"));
    for sid in [s1, s2] {
        assert_eq!(hub.recv(&t, sid), Some(msg("one")));
        assert_eq!(hub.recv(&t, sid), Some(msg("two")));
        assert_eq!(hub.recv(&t, sid), None);
    }
    assert_eq!(hub.recv(&other, s3), None);
}

#[test]
fn subscriber_only_sees_messages_published_after_joining() {
    let mut hub = Hub::new();
    let t = "t".to_string();
    let s1 = hub.subscribe(&t, &"alice".to_string());
    hub.publish(&t, &msg("early"));
    let s2 = hub.subscribe(&t, &"bob".to_string());
    hub.publish(&t, &msg("late"));
    assert_eq!(hub.recv(&t, s1), Some(msg("early")));
    assert_eq!(hub.recv(&t, s1), Some(msg("late")));
    assert_eq!(hub.recv(&t, s2), Some(msg("late")));
    assert_eq!(hub.recv(&t, s2), None);
}

#[test]
fn full_buffer_drops_the_oldest_message() {
    let mut hub = Hub::with_limits(5, 2);
    let t = "t".to_string();
    let s = hub.subscribe(&t, &"alice".to_string());
    hub.publish(&t, &msg("one"));
    hub.publish(&t, &msg("two"));
    hub.publish(&t, &msg("three"));
    assert_eq!(hub.recv(&t, s), Some(msg("two")));
    assert_eq!(hub.recv(&t, s), Some(msg("three")));
    assert_eq!(hub.recv(&t, s), None);
}

#[test]
fn publishing_to_an_unknown_topic_delivers_nowhere() {
    let mut hub = Hub::new();
    hub.publish(&"nowhere".to_string(), &msg("lost"));
    assert!(!hub.contains_topic(&"nowhere".to_string()));
}

#[test]
fn broadcast_reaches_every_topic() {
    let mut hub = Hub::new();
    let s1 = hub.subscribe(&"t1".to_string(), &"alice".to_string());
    let s2 = hub.subscribe(&"t2".to_string(), &"bob".to_string());
    hub.broadcast_to_all(&msg("global"));
    assert_eq!(hub.recv(&"t1".to_string(), s1), Some(msg("global")));
    assert_eq!(hub.recv(&"t2".to_string(), s2), Some(msg("global")));
}

#[test]
fn reap_removes_only_subscriberless_topics() {
    let mut hub = Hub::new();
    let t = "t".to_string();
    let busy = "busy".to_string();
    let s = hub.subscribe(&t, &"alice".to_string());
    let _keep = hub.subscribe(&busy, &"bob".to_string());
    hub.unsubscribe(&t, s);
    // the emptied topic survives until the sweep, for quick reconnects
    assert!(hub.contains_topic(&t));
    hub.reap();
    assert!(!hub.contains_topic(&t));
    assert!(hub.contains_topic(&busy));
}

#[test]
fn subscriber_counts_follow_subscribe_and_unsubscribe() {
    let mut hub = Hub::new();
    let t = "t".to_string();
    assert_eq!(hub.subscriber_count(&t), 0);
    let s1 = hub.subscribe(&t, &"alice".to_string());
    let _s2 = hub.subscribe(&t, &"bob".to_string());
    assert_eq!(hub.subscriber_count(&t), 2);
    hub.unsubscribe(&t, s1);
    assert_eq!(hub.subscriber_count(&t), 1);
}
