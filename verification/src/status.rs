//! Presence statuses and the staleness rule that derives the effective one.

use vstd::prelude::*;

verus! {

/// A user's stored presence status.
#[derive(Clone, Copy, Debug, PartialEq, Eq, Structural)]
pub enum Status {
    Online,
    Idle,
    Dnd,
    Focus,
    Offline,
}

/// A stored status older than this many seconds is reported as offline.
pub const STALENESS_SECS: u64 = 60;

/// The effective status: the stored one, forced to offline once the
/// record is more than `STALENESS_SECS` seconds old.
pub open spec fn spec_effective(stored: Status, last_seen: u64, now: u64) -> Status {
    if now > last_seen + STALENESS_SECS {
        Status::Offline
    } else {
        stored
    }
}

/// Applies the staleness rule to a stored status.  The effective status
/// is a pure function of the stored status, its timestamp and `now`; it
/// is computed on every read and never stored.
pub fn effective(stored: Status, last_seen: u64, now: u64) -> (r: Status)
    ensures
        r == spec_effective(stored, last_seen, now),
{
    if now > last_seen && now - last_seen > STALENESS_SECS {
        Status::Offline
    } else {
        stored
    }
}

/// The wire word for each status.
pub open spec fn spec_status_str(s: Status) -> Seq<char> {
    match s {
        Status::Online => "online"@,
        Status::Idle => "idle"@,
        Status::Dnd => "dnd"@,
        Status::Focus => "focus"@,
        Status::Offline => "offline"@,
    }
}

/// Renders a status as its wire word.
pub fn status_as_str(s: Status) -> (r: &'static str)
    ensures
        r@ == spec_status_str(s),
{
    match s {
        Status::Online => "online",
        Status::Idle => "idle",
        Status::Dnd => "dnd",
        Status::Focus => "focus",
        Status::Offline => "offline",
    }
}

/// Which status a wire word denotes, if any.
pub open spec fn spec_parse_status(s: Seq<char>) -> Option<Status> {
    if s == "online"@ {
        Some(Status::Online)
    } else if s == "idle"@ {
        Some(Status::Idle)
    } else if s == "dnd"@ {
        Some(Status::Dnd)
    } else if s == "focus"@ {
        Some(Status::Focus)
    } else if s == "offline"@ {
        Some(Status::Offline)
    } else {
        None
    }
}

/// Parses a wire word back into a status.
pub fn parse_status(s: &String) -> (r: Option<Status>)
    ensures
        r == spec_parse_status(s@),
{
    if *s == String::from_str("online") {
        Some(Status::Online)
    } else if *s == String::from_str("idle") {
        Some(Status::Idle)
    } else if *s == String::from_str("dnd") {
        Some(Status::Dnd)
    } else if *s == String::from_str("focus") {
        Some(Status::Focus)
    } else if *s == String::from_str("offline") {
        Some(Status::Offline)
    } else {
        None
    }
}

/// Round trip: rendering a status and parsing the word back yields the
/// same status.
pub proof fn lemma_status_str_round_trip(s: Status)
    ensures
        spec_parse_status(spec_status_str(s)) == Some(s),
{
    reveal_strlit("online");
    reveal_strlit("idle");
    reveal_strlit("dnd");
    reveal_strlit("focus");
    reveal_strlit("offline");
    assert("online"@.len() == 6);
    assert("idle"@.len() == 4);
    assert("dnd"@.len() == 3);
    assert("focus"@.len() == 5);
    assert("offline"@.len() == 7);
}

/// The staleness rule in both directions: a record older than the
/// window reads offline whatever it stored; a record within the window
/// reads exactly what it stored.
pub proof fn lemma_staleness_rule(stored: Status, last_seen: u64, now: u64)
    ensures
        now > last_seen + STALENESS_SECS ==> spec_effective(stored, last_seen, now)
            == Status::Offline,
        now <= last_seen + STALENESS_SECS ==> spec_effective(stored, last_seen, now) == stored,
{
}

} // verus!
