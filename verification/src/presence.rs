//! The presence engine: effective-status lookups over the
//! authoritative store, the optional read-through cache, and the
//! broadcast of presence changes.
//!
//! The store and the cache are outside collaborators reached over the
//! network; callers hand this module their replies as plain values (a
//! row, a list of cached strings, or nothing at all when the cache is
//! absent or failed) and carry the computed writes back out.  A cache
//! that answered nothing and a cache that does not exist look the
//! same here, so degradation has a single path.

use vstd::prelude::*;

use crate::event::Event;
use crate::status::{spec_effective, spec_parse_status, spec_status_str, Status};

verus! {

/// Cached presence entries live this many seconds: longer than the
/// staleness window, so a cached status expires close to when the
/// staleness rule would judge it offline anyway.
pub const PRESENCE_CACHE_TTL_SECS: u64 = 90;

/// Most user ids one bulk lookup may name.
pub const BULK_PRESENCE_MAX: usize = 100;

/// A stored presence row: last written status and when it was written.
#[derive(Clone, Copy, Debug, PartialEq, Eq, Structural)]
pub struct PresenceRecord {
    pub status: Status,
    pub last_seen: u64,
}

/// What a presence read reports for one user.
#[derive(Debug)]
pub struct PresenceResponse {
    pub user_id: String,
    pub status: Status,
    pub last_seen: u64,
}

/// The body of a set-presence call.
#[derive(Debug)]
pub struct UpdatePresenceRequest {
    pub status: String,
}

/// The body of a bulk presence lookup.
#[derive(Debug)]
pub struct BulkPresenceRequest {
    pub user_ids: Vec<String>,
}

/// Why a presence call was refused.
#[derive(Clone, Copy, Debug, PartialEq, Eq, Structural)]
pub enum PresenceError {
    /// A bulk lookup named more ids than `BULK_PRESENCE_MAX` allows.
    BatchTooLarge,
}

/// The cache key under which a user's presence is stored.
pub fn presence_key(user_id: &String) -> (r: String)
    ensures
        r@ == "presence:"@ + user_id@,
{
    let mut key = String::from_str("presence:");
    key.append(user_id.as_str());
    key
}

/// Everything one set-presence call must do, computed up front: the
/// row to upsert, the cache write (best effort: a cache failure is the
/// caller's to swallow, never to surface), and the event to broadcast
/// to every topic.
pub struct PresenceWrite {
    pub record: PresenceRecord,
    pub cache_key: String,
    pub cache_value: String,
    pub cache_ttl: u64,
    pub broadcast: Event,
}

/// Plans a presence update for the user: the stored row takes the new
/// status with `last_seen = now`, the cache mirrors the raw status
/// under the user's key for the fixed TTL, and every topic hears a
/// presence-update event.
pub fn set_presence(user_id: &String, status: Status, now: u64) -> (w: PresenceWrite)
    ensures
        w.record == (PresenceRecord { status, last_seen: now }),
        w.cache_key@ == "presence:"@ + user_id@,
        w.cache_value@ == spec_status_str(status),
        w.cache_ttl == PRESENCE_CACHE_TTL_SECS,
        w.broadcast matches Event::PresenceUpdate { user_id: u, status: s } && u@ == user_id@
            && s@ == spec_status_str(status),
{
    let value = String::from_str(crate::status::status_as_str(status));
    PresenceWrite {
        record: PresenceRecord { status, last_seen: now },
        cache_key: presence_key(user_id),
        cache_value: value.clone(),
        cache_ttl: PRESENCE_CACHE_TTL_SECS,
        broadcast: Event::PresenceUpdate { user_id: user_id.clone(), status: value },
    }
}

/// A heartbeat is a cheap set-presence to online.
pub fn heartbeat(user_id: &String, now: u64) -> (w: PresenceWrite)
    ensures
        w.record == (PresenceRecord { status: Status::Online, last_seen: now }),
        w.cache_key@ == "presence:"@ + user_id@,
        w.cache_value@ == spec_status_str(Status::Online),
        w.cache_ttl == PRESENCE_CACHE_TTL_SECS,
        w.broadcast matches Event::PresenceUpdate { user_id: u, status: s } && u@ == user_id@
            && s@ == spec_status_str(Status::Online),
{
    set_presence(user_id, Status::Online, now)
}

/// Shapes a single-user read: the stored row under the staleness rule,
/// or offline as of `now` for a user with no row at all.
pub fn get_user_presence(user_id: String, row: Option<PresenceRecord>, now: u64) -> (r:
    PresenceResponse)
    ensures
        r.user_id == user_id,
        match row {
            Some(rec) => r.status == spec_effective(rec.status, rec.last_seen, now)
                && r.last_seen == rec.last_seen,
            None => r.status == Status::Offline && r.last_seen == now,
        },
{
    match row {
        Some(rec) => PresenceResponse {
            user_id,
            status: crate::status::effective(rec.status, rec.last_seen, now),
            last_seen: rec.last_seen,
        },
        None => PresenceResponse { user_id, status: Status::Offline, last_seen: now },
    }
}

/// Shapes a topic-wide read (all members of a guild): each row's raw
/// stored status, reported as it stands.
pub fn get_guild_presence(rows: &Vec<(String, PresenceRecord)>) -> (r: Vec<PresenceResponse>)
    ensures
        r@.len() == rows@.len(),
        forall|i: int|
            0 <= i < rows@.len() ==> {
                &&& (#[trigger] r@[i]).user_id@ == rows@[i].0@
                &&& r@[i].status == rows@[i].1.status
                &&& r@[i].last_seen == rows@[i].1.last_seen
            },
{
    let mut out: Vec<PresenceResponse> = Vec::new();
    let n = rows.len();
    let mut i: usize = 0;
    while i < n
        invariant
            i <= n,
            n == rows@.len(),
            out@.len() == i,
            forall|j: int|
                0 <= j < i ==> {
                    &&& (#[trigger] out@[j]).user_id@ == rows@[j].0@
                    &&& out@[j].status == rows@[j].1.status
                    &&& out@[j].last_seen == rows@[j].1.last_seen
                },
        decreases n - i,
    {
        out.push(
            PresenceResponse {
                user_id: rows[i].0.clone(),
                status: rows[i].1.status,
                last_seen: rows[i].1.last_seen,
            },
        );
        i += 1;
    }
    out
}

/// What the cache answered for the id at position `i` of the request:
/// a status only if the whole call succeeded, position `i` exists,
/// holds a value, and that value is a status word.  Everything else is
/// a miss.
pub open spec fn spec_cache_hit(reply: &Option<Vec<Option<String>>>, i: int) -> Option<Status> {
    match reply {
        None => None,
        Some(values) => if 0 <= i < values@.len() {
            match values@[i] {
                Some(s) => spec_parse_status(s@),
                None => None,
            }
        } else {
            None
        },
    }
}

/// Reads one position of the cache reply.
fn cache_hit(reply: &Option<Vec<Option<String>>>, i: usize) -> (r: Option<Status>)
    ensures
        r == spec_cache_hit(reply, i as int),
{
    match reply {
        None => None,
        Some(values) => if i < values.len() {
            match &values[i] {
                Some(s) => crate::status::parse_status(s),
                None => None,
            }
        } else {
            None
        },
    }
}

/// The first store row for the id, if one came back.
pub open spec fn spec_row_for(rows: Seq<(String, PresenceRecord)>, id: Seq<char>) -> Option<
    PresenceRecord,
>
    decreases rows.len(),
{
    if rows.len() == 0 {
        None
    } else if rows[0].0@ == id {
        Some(rows[0].1)
    } else {
        spec_row_for(rows.drop_first(), id)
    }
}

/// Finds the store row for an id.
#[verifier::loop_isolation(false)]
fn find_row(rows: &Vec<(String, PresenceRecord)>, id: &String) -> (r: Option<PresenceRecord>)
    ensures
        r == spec_row_for(rows@, id@),
{
    let n = rows.len();
    let mut i: usize = 0;
    proof {
        assert(rows@.skip(0) =~= rows@);
    }
    while i < n
        invariant
            i <= n,
            spec_row_for(rows@, id@) == spec_row_for(rows@.skip(i as int), id@),
        decreases n - i,
    {
        proof {
            assert(rows@.skip(i as int).drop_first() =~= rows@.skip(i as int + 1));
            assert(rows@.skip(i as int)[0] == rows@[i as int]);
        }
        if rows[i].0 == *id {
            return Some(rows[i].1);
        }
        i += 1;
    }
    proof {
        assert(rows@.skip(n as int).len() == 0);
    }
    None
}

/// The status a bulk lookup reports for the id at position `i`: the
/// cached status if the cache answered one, otherwise the store row
/// under the staleness rule, otherwise offline.
pub open spec fn spec_bulk_status(
    id: Seq<char>,
    hit: Option<Status>,
    rows: Seq<(String, PresenceRecord)>,
    now: u64,
) -> Status {
    match hit {
        Some(st) => st,
        None => match spec_row_for(rows, id) {
            Some(rec) => spec_effective(rec.status, rec.last_seen, now),
            None => Status::Offline,
        },
    }
}

/// Resolves a bulk lookup: one status per requested id, in request
/// order.  Cached answers are taken as they are (their TTL bounds
/// their age); ids the cache missed fall back to the store rows under
/// the staleness rule; ids without a row report offline.  A batch over
/// `BULK_PRESENCE_MAX` ids is refused outright, and only then.
#[verifier::loop_isolation(false)]
pub fn get_bulk_presence(
    ids: &Vec<String>,
    cache_reply: &Option<Vec<Option<String>>>,
    rows: &Vec<(String, PresenceRecord)>,
    now: u64,
) -> (r: Result<Vec<(String, Status)>, PresenceError>)
    ensures
        r is Err <==> ids@.len() > BULK_PRESENCE_MAX,
        r matches Err(e) ==> e == PresenceError::BatchTooLarge,
        r matches Ok(out) ==> {
            &&& out@.len() == ids@.len()
            &&& forall|i: int|
                0 <= i < ids@.len() ==> (#[trigger] out@[i]).0@ == ids@[i]@ && out@[i].1
                    == spec_bulk_status(ids@[i]@, spec_cache_hit(cache_reply, i), rows@, now)
        },
{
    if ids.len() > BULK_PRESENCE_MAX {
        return Err(PresenceError::BatchTooLarge);
    }
    let mut out: Vec<(String, Status)> = Vec::new();
    let n = ids.len();
    let mut i: usize = 0;
    while i < n
        invariant
            i <= n,
            n == ids@.len(),
            out@.len() == i,
            forall|j: int|
                0 <= j < i ==> (#[trigger] out@[j]).0@ == ids@[j]@ && out@[j].1
                    == spec_bulk_status(ids@[j]@, spec_cache_hit(cache_reply, j), rows@, now),
        decreases n - i,
    {
        let status = match cache_hit(cache_reply, i) {
            Some(st) => st,
            None => match find_row(rows, &ids[i]) {
                Some(rec) => crate::status::effective(rec.status, rec.last_seen, now),
                None => Status::Offline,
            },
        };
        out.push((ids[i].clone(), status));
        i += 1;
    }
    Ok(out)
}

/// The requested ids the cache did not answer, in request order.
pub open spec fn spec_misses(
    ids: Seq<String>,
    reply: &Option<Vec<Option<String>>>,
    i: int,
) -> Seq<String>
    decreases ids.len() - i,
{
    if i < 0 || i >= ids.len() {
        Seq::empty()
    } else if spec_cache_hit(reply, i) is Some {
        spec_misses(ids, reply, i + 1)
    } else {
        seq![ids[i]] + spec_misses(ids, reply, i + 1)
    }
}

/// The ids a bulk lookup still has to resolve against the store: every
/// requested id the cache did not answer, in request order.  With no
/// cache reply at all that is the whole request.
#[verifier::loop_isolation(false)]
pub fn bulk_misses(ids: &Vec<String>, cache_reply: &Option<Vec<Option<String>>>) -> (m: Vec<
    String,
>)
    ensures
        m@ == spec_misses(ids@, cache_reply, 0),
{
    let mut out: Vec<String> = Vec::new();
    let n = ids.len();
    let mut i: usize = 0;
    while i < n
        invariant
            i <= n,
            n == ids@.len(),
            spec_misses(ids@, cache_reply, 0) =~= out@ + spec_misses(ids@, cache_reply, i as int),
        decreases n - i,
    {
        let ghost pre = out@;
        if cache_hit(cache_reply, i).is_none() {
            out.push(ids[i].clone());
            proof {
                assert(out@ =~= pre + seq![ids@[i as int]]);
                assert(pre + (seq![ids@[i as int]] + spec_misses(ids@, cache_reply, i + 1)) =~= (
                pre + seq![ids@[i as int]]) + spec_misses(ids@, cache_reply, i + 1));
            }
        }
        i += 1;
    }
    proof {
        assert(spec_misses(ids@, cache_reply, n as int) =~= Seq::<String>::empty());
        assert(out@ + Seq::<String>::empty() =~= out@);
    }
    out
}

/// The first status a resolved bulk answer holds for the id.
pub open spec fn spec_assoc(out: Seq<(String, Status)>, id: Seq<char>) -> Option<Status>
    decreases out.len(),
{
    if out.len() == 0 {
        None
    } else if out[0].0@ == id {
        Some(out[0].1)
    } else {
        spec_assoc(out.drop_first(), id)
    }
}

/// The cache writes that follow a resolved bulk lookup: one entry per
/// missed id with its resolved status — offline included, so unknown
/// users stop costing a store round trip — each under the fixed TTL.
/// A missed id the answer does not name (which a lookup over the same
/// request never produces) is written as offline.
#[verifier::loop_isolation(false)]
pub fn bulk_writeback(out: &Vec<(String, Status)>, misses: &Vec<String>) -> (w: Vec<
    (String, Status, u64),
>)
    ensures
        w@.len() == misses@.len(),
        forall|i: int|
            0 <= i < misses@.len() ==> {
                &&& (#[trigger] w@[i]).0@ == misses@[i]@
                &&& w@[i].1 == match spec_assoc(out@, misses@[i]@) {
                    Some(st) => st,
                    None => Status::Offline,
                }
                &&& w@[i].2 == PRESENCE_CACHE_TTL_SECS
            },
{
    let mut w: Vec<(String, Status, u64)> = Vec::new();
    let n = misses.len();
    let mut i: usize = 0;
    while i < n
        invariant
            i <= n,
            n == misses@.len(),
            w@.len() == i,
            forall|j: int|
                0 <= j < i ==> {
                    &&& (#[trigger] w@[j]).0@ == misses@[j]@
                    &&& w@[j].1 == match spec_assoc(out@, misses@[j]@) {
                        Some(st) => st,
                        None => Status::Offline,
                    }
                    &&& w@[j].2 == PRESENCE_CACHE_TTL_SECS
                },
        decreases n - i,
    {
        let status = match find_status(out, &misses[i]) {
            Some(st) => st,
            None => Status::Offline,
        };
        w.push((misses[i].clone(), status, PRESENCE_CACHE_TTL_SECS));
        i += 1;
    }
    w
}

/// Finds the resolved status for an id.
#[verifier::loop_isolation(false)]
fn find_status(out: &Vec<(String, Status)>, id: &String) -> (r: Option<Status>)
    ensures
        r == spec_assoc(out@, id@),
{
    let n = out.len();
    let mut i: usize = 0;
    proof {
        assert(out@.skip(0) =~= out@);
    }
    while i < n
        invariant
            i <= n,
            spec_assoc(out@, id@) == spec_assoc(out@.skip(i as int), id@),
        decreases n - i,
    {
        proof {
            assert(out@.skip(i as int).drop_first() =~= out@.skip(i as int + 1));
            assert(out@.skip(i as int)[0] == out@[i as int]);
        }
        if out[i].0 == *id {
            return Some(out[i].1);
        }
        i += 1;
    }
    proof {
        assert(out@.skip(n as int).len() == 0);
    }
    None
}

/// Whether `uuid::Uuid::parse_str` accepts the string: a function of
/// the characters alone (the RFC 4122 textual grammar, not restated).
pub uninterp spec fn uuid_ok(s: Seq<char>) -> bool;

/// Relies on uuid::Uuid::parse_str: whether a string parses as a UUID
/// depends on the string alone.
#[verifier::external_body]
fn is_valid_uuid(s: &String) -> (r: bool)
    ensures
        r == uuid_ok(s@),
{
    uuid::Uuid::parse_str(s.as_str()).is_ok()
}

/// The missed ids that are well-formed UUIDs, in order.
pub open spec fn spec_store_ids(misses: Seq<String>, i: int) -> Seq<String>
    decreases misses.len() - i,
{
    if i < 0 || i >= misses.len() {
        Seq::empty()
    } else if uuid_ok(misses[i]@) {
        seq![misses[i]] + spec_store_ids(misses, i + 1)
    } else {
        spec_store_ids(misses, i + 1)
    }
}

/// The ids worth sending to the store: of the cache misses, those that
/// parse as UUIDs — the store cannot hold a row under any other id, so
/// malformed ids resolve to offline without a query.
#[verifier::loop_isolation(false)]
pub fn bulk_store_ids(misses: &Vec<String>) -> (r: Vec<String>)
    ensures
        r@ == spec_store_ids(misses@, 0),
{
    let mut out: Vec<String> = Vec::new();
    let n = misses.len();
    let mut i: usize = 0;
    while i < n
        invariant
            i <= n,
            n == misses@.len(),
            spec_store_ids(misses@, 0) =~= out@ + spec_store_ids(misses@, i as int),
        decreases n - i,
    {
        let ghost pre = out@;
        if is_valid_uuid(&misses[i]) {
            out.push(misses[i].clone());
            proof {
                assert(out@ =~= pre + seq![misses@[i as int]]);
                assert(pre + (seq![misses@[i as int]] + spec_store_ids(misses@, i + 1)) =~= (pre
                    + seq![misses@[i as int]]) + spec_store_ids(misses@, i + 1));
            }
        }
        i += 1;
    }
    proof {
        assert(spec_store_ids(misses@, n as int) =~= Seq::<String>::empty());
        assert(out@ + Seq::<String>::empty() =~= out@);
    }
    out
}

} // verus!
