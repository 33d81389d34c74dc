use wryft_live::status::{effective, parse_status, status_as_str, Status};

#[test]
fn stored_status_within_window() {
    assert_eq!(effective(Status::Dnd, 0, 30), Status::Dnd);
    assert_eq!(effective(Status::Idle, 100, 160), Status::Idle);
}

#[test]
fn stale_record_reads_offline() {
    assert_eq!(effective(Status::Dnd, 0, 61), Status::Offline);
    assert_eq!(effective(Status::Online, 0, 1_000_000), Status::Offline);
}

#[test]
fn staleness_boundary_is_exclusive() {
    assert_eq!(effective(Status::Focus, 0, 60), Status::Focus);
    assert_eq!(effective(Status::Focus, 0, 61), Status::Offline);
}

#[test]
fn future_record_reads_stored() {
    assert_eq!(effective(Status::Online, 100, 50), Status::Online);
}

#[test]
fn status_words_round_trip() {
    for s in [Status::Online, Status::Idle, Status::Dnd, Status::Focus, Status::Offline] {
        let word = status_as_str(s).to_string();
        assert_eq!(parse_status(&word), Some(s));
    }
}

#[test]
fn unknown_word_parses_to_nothing() {
    assert_eq!(parse_status(&"away".to_string()), None);
    assert_eq!(parse_status(&"".to_string()), None);
    assert_eq!(parse_status(&"Online".to_string()), None);
}

#[test]
fn clock_reads_a_post_epoch_time() {
    // the process clock: after 2020 on any sane host, and never backwards
    let a = wryft_live::clock::now_seconds();
    let b = wryft_live::clock::now_seconds();
    assert!(a > 1_577_836_800);
    assert!(b >= a);
}
