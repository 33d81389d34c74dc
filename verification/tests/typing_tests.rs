use wryft_live::ephemeral::{SignalTable, TYPING_EXPIRY_SECS, VOICE_EXPIRY_SECS};

fn pair(u: &str, d: &str) -> (String, String) {
    (u.to_string(), d.to_string())
}

#[test]
fn started_pair_is_listed() {
    let mut t = SignalTable::new(TYPING_EXPIRY_SECS);
    t.start(&"c1".to_string(), &"alice".to_string(), "Alice".to_string(), 100);
    assert_eq!(t.list(&"c1".to_string(), 105), vec![pair("alice", "Alice")]);
}

#[test]
fn stop_after_start_unlists() {
    let mut t = SignalTable::new(TYPING_EXPIRY_SECS);
    t.start(&"c1".to_string(), &"alice".to_string(), "Alice".to_string(), 100);
    t.stop(&"c1".to_string(), &"alice".to_string());
    assert!(t.list(&"c1".to_string(), 101).is_empty());
}

#[test]
fn start_expires_after_the_window() {
    let mut t = SignalTable::new(TYPING_EXPIRY_SECS);
    t.start(&"c1".to_string(), &"alice".to_string(), "Alice".to_string(), 100);
    assert_eq!(t.list(&"c1".to_string(), 110).len(), 1);
    assert!(t.list(&"c1".to_string(), 111).is_empty());
}

#[test]
fn restart_refreshes_the_window() {
    let mut t = SignalTable::new(TYPING_EXPIRY_SECS);
    t.start(&"c1".to_string(), &"alice".to_string(), "Alice".to_string(), 100);
    t.start(&"c1".to_string(), &"alice".to_string(), "Alice".to_string(), 109);
    let listed = t.list(&"c1".to_string(), 115);
    assert_eq!(listed, vec![pair("alice", "Alice")]);
}

#[test]
fn stop_is_idempotent() {
    let mut t = SignalTable::new(TYPING_EXPIRY_SECS);
    t.stop(&"c1".to_string(), &"nobody".to_string());
    t.start(&"c1".to_string(), &"alice".to_string(), "Alice".to_string(), 100);
    t.stop(&"c1".to_string(), &"alice".to_string());
    t.stop(&"c1".to_string(), &"alice".to_string());
    assert!(t.list(&"c1".to_string(), 100).is_empty());
}

#[test]
fn topics_do_not_leak_into_each_other() {
    let mut t = SignalTable::new(TYPING_EXPIRY_SECS);
    t.start(&"c1".to_string(), &"alice".to_string(), "Alice".to_string(), 100);
    t.start(&"c2".to_string(), &"bob".to_string(), "Bob".to_string(), 100);
    assert_eq!(t.list(&"c1".to_string(), 101), vec![pair("alice", "Alice")]);
    assert_eq!(t.list(&"c2".to_string(), 101), vec![pair("bob", "Bob")]);
}

#[test]
fn one_row_per_pair() {
    let mut t = SignalTable::new(TYPING_EXPIRY_SECS);
    t.start(&"c1".to_string(), &"alice".to_string(), "Alice".to_string(), 100);
    t.start(&"c1".to_string(), &"alice".to_string(), "Alice".to_string(), 103);
    assert_eq!(t.list(&"c1".to_string(), 104).len(), 1);
}

#[test]
fn voice_heartbeat_keeps_session_and_peer() {
    let mut v = SignalTable::new(VOICE_EXPIRY_SECS);
    v.start(&"room".to_string(), &"alice".to_string(), "peer-1".to_string(), 0);
    v.refresh(&"room".to_string(), &"alice".to_string(), 20);
    // 35 is past the original window but within the refreshed one
    assert_eq!(v.list(&"room".to_string(), 35), vec![pair("alice", "peer-1")]);
}

#[test]
fn unrefreshed_voice_session_expires() {
    let mut v = SignalTable::new(VOICE_EXPIRY_SECS);
    v.start(&"room".to_string(), &"alice".to_string(), "peer-1".to_string(), 0);
    assert!(v.list(&"room".to_string(), 31).is_empty());
}

#[test]
fn refresh_without_a_row_changes_nothing() {
    let mut v = SignalTable::new(VOICE_EXPIRY_SECS);
    v.refresh(&"room".to_string(), &"alice".to_string(), 5);
    assert!(v.list(&"room".to_string(), 6).is_empty());
}

#[test]
fn writers_purge_other_pairs_stale_rows() {
    let mut t = SignalTable::new(TYPING_EXPIRY_SECS);
    t.start(&"c1".to_string(), &"alice".to_string(), "Alice".to_string(), 100);
    // bob starts much later; alice's stale row is swept by that write
    t.start(&"c1".to_string(), &"bob".to_string(), "Bob".to_string(), 200);
    assert_eq!(t.entries.len(), 1);
    assert_eq!(t.list(&"c1".to_string(), 201), vec![pair("bob", "Bob")]);
}
