use wryft_live::event::Event;
use wryft_live::presence::{
    bulk_misses, bulk_store_ids, bulk_writeback, get_bulk_presence, heartbeat, presence_key,
    set_presence, get_user_presence, get_guild_presence, PresenceError, PresenceRecord,
};
use wryft_live::status::Status;

fn rec(status: Status, last_seen: u64) -> PresenceRecord {
    PresenceRecord { status, last_seen }
}

#[test]
fn dnd_then_silence_goes_offline() {
    // set presence to dnd at t = 0; read at 30 and at 61 with no heartbeat
    let w = set_presence(&"alice".to_string(), Status::Dnd, 0);
    let at_30 = get_user_presence("alice".to_string(), Some(w.record), 30);
    assert_eq!(at_30.status, Status::Dnd);
    let at_61 = get_user_presence("alice".to_string(), Some(w.record), 61);
    assert_eq!(at_61.status, Status::Offline);
}

#[test]
fn missing_record_reads_offline_as_of_now() {
    let r = get_user_presence("ghost".to_string(), None, 1234);
    assert_eq!(r.status, Status::Offline);
    assert_eq!(r.last_seen, 1234);
    assert_eq!(r.user_id, "ghost");
}

#[test]
fn set_presence_plans_row_cache_and_broadcast() {
    let w = set_presence(&"u1".to_string(), Status::Idle, 7);
    assert_eq!(w.record, rec(Status::Idle, 7));
    assert_eq!(w.cache_key, "presence:u1");
    assert_eq!(w.cache_value, "idle");
    assert_eq!(w.cache_ttl, 90);
    assert_eq!(
        w.broadcast,
        Event::PresenceUpdate { user_id: "u1".to_string(), status: "idle".to_string() }
    );
}

#[test]
fn heartbeat_is_online_set_presence() {
    let w = heartbeat(&"u1".to_string(), 42);
    assert_eq!(w.record, rec(Status::Online, 42));
    assert_eq!(w.cache_value, "online");
}

#[test]
fn presence_key_is_namespaced() {
    assert_eq!(presence_key(&"abc".to_string()), "presence:abc");
}

#[test]
fn bulk_returns_exactly_one_entry_per_id() {
    let ids = vec!["a".to_string(), "b".to_string(), "c".to_string()];
    let rows = vec![("a".to_string(), rec(Status::Dnd, 100))];
    let out = get_bulk_presence(&ids, &None, &rows, 110).unwrap();
    assert_eq!(out.len(), 3);
    assert_eq!(out[0], ("a".to_string(), Status::Dnd));
    assert_eq!(out[1], ("b".to_string(), Status::Offline));
    assert_eq!(out[2], ("c".to_string(), Status::Offline));
}

#[test]
fn bulk_rejects_batches_over_the_cap() {
    let ids: Vec<String> = (0..101).map(|i| format!("u{}", i)).collect();
    assert_eq!(
        get_bulk_presence(&ids, &None, &Vec::new(), 0),
        Err(PresenceError::BatchTooLarge)
    );
    let ids: Vec<String> = (0..100).map(|i| format!("u{}", i)).collect();
    assert!(get_bulk_presence(&ids, &None, &Vec::new(), 0).is_ok());
}

#[test]
fn bulk_empty_request_yields_empty_answer() {
    let out = get_bulk_presence(&Vec::new(), &None, &Vec::new(), 0).unwrap();
    assert!(out.is_empty());
}

#[test]
fn cached_status_wins_over_store() {
    let ids = vec!["a".to_string()];
    let reply = Some(vec![Some("focus".to_string())]);
    let rows = vec![("a".to_string(), rec(Status::Dnd, 100))];
    let out = get_bulk_presence(&ids, &reply, &rows, 110).unwrap();
    assert_eq!(out[0].1, Status::Focus);
}

#[test]
fn garbled_cache_value_falls_back_to_store() {
    let ids = vec!["a".to_string()];
    let reply = Some(vec![Some("not-a-status".to_string())]);
    let rows = vec![("a".to_string(), rec(Status::Dnd, 100))];
    let out = get_bulk_presence(&ids, &reply, &rows, 110).unwrap();
    assert_eq!(out[0].1, Status::Dnd);
}

#[test]
fn stale_store_row_reads_offline_in_bulk() {
    let ids = vec!["a".to_string()];
    let rows = vec![("a".to_string(), rec(Status::Online, 0))];
    let out = get_bulk_presence(&ids, &None, &rows, 61).unwrap();
    assert_eq!(out[0].1, Status::Offline);
}

#[test]
fn misses_are_all_ids_without_a_cache_answer() {
    let ids = vec!["a".to_string(), "b".to_string(), "c".to_string()];
    assert_eq!(bulk_misses(&ids, &None), ids);
    let reply = Some(vec![Some("online".to_string()), None, Some("junk".to_string())]);
    assert_eq!(bulk_misses(&ids, &reply), vec!["b".to_string(), "c".to_string()]);
    let short_reply = Some(vec![Some("online".to_string())]);
    assert_eq!(bulk_misses(&ids, &short_reply), vec!["b".to_string(), "c".to_string()]);
}

#[test]
fn only_well_formed_uuids_reach_the_store() {
    let misses = vec![
        "550e8400-e29b-41d4-a716-446655440000".to_string(),
        "not-a-uuid".to_string(),
        "6ba7b810-9dad-11d1-80b4-00c04fd430c8".to_string(),
    ];
    assert_eq!(
        bulk_store_ids(&misses),
        vec![
            "550e8400-e29b-41d4-a716-446655440000".to_string(),
            "6ba7b810-9dad-11d1-80b4-00c04fd430c8".to_string(),
        ]
    );
}

#[test]
fn writeback_covers_every_miss_including_offline() {
    let out = vec![
        ("a".to_string(), Status::Dnd),
        ("b".to_string(), Status::Offline),
    ];
    let misses = vec!["a".to_string(), "b".to_string()];
    let w = bulk_writeback(&out, &misses);
    assert_eq!(w.len(), 2);
    assert_eq!(w[0], ("a".to_string(), Status::Dnd, 90));
    assert_eq!(w[1], ("b".to_string(), Status::Offline, 90));
}

#[test]
fn topic_presence_reports_rows_as_stored() {
    let rows = vec![
        ("a".to_string(), rec(Status::Dnd, 5)),
        ("b".to_string(), rec(Status::Online, 0)),
    ];
    let out = get_guild_presence(&rows);
    assert_eq!(out.len(), 2);
    assert_eq!(out[0].user_id, "a");
    assert_eq!(out[0].status, Status::Dnd);
    assert_eq!(out[1].status, Status::Online);
}
