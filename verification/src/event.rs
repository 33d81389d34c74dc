//! The stream message envelope: a tagged union of every event that rides
//! a topic's broadcast group, and the rewrite rules the connection
//! handler applies to inbound events before republishing them.
//!
//! Opaque signaling payloads (offers, answers, candidates) are carried as
//! uninterpreted strings; the hub never reads them.

use vstd::prelude::*;

verus! {

/// Every recognized stream message.  Unrecognized tags and malformed
/// payloads never reach the library: the socket edge drops them without
/// closing the connection.
#[derive(Debug, PartialEq, Eq)]
pub enum Event {
    Message { id: String, channel: String, content: String, author: String, timestamp: String },
    MessageEdited { id: String, channel: String, content: String },
    MessageDeleted { id: String, channel: String },
    Typing { channel: String, user: String },
    UserJoined { user: String },
    UserLeft { user: String },
    VoiceJoin { channel_id: String, peer_id: String, username: String },
    VoiceLeave { channel_id: String, peer_id: String },
    VoiceOffer { channel_id: String, target_peer_id: String, peer_id: String, offer: String },
    VoiceAnswer { channel_id: String, target_peer_id: String, peer_id: String, answer: String },
    VoiceIceCandidate {
        channel_id: String,
        target_peer_id: String,
        peer_id: String,
        candidate: String,
    },
    VoiceHeartbeat { channel_id: String, peer_id: String },
    PresenceUpdate { user_id: String, status: String },
    VoiceUserJoined { peer_id: String, username: String, channel_id: String },
    VoiceUserLeft { peer_id: String, channel_id: String },
}

impl Clone for Event {
    /// A clone is equal to the original, field for field.
    fn clone(&self) -> (r: Self)
        ensures
            r == *self,
    {
        match self {
            Event::Message { id, channel, content, author, timestamp } => Event::Message {
                id: id.clone(),
                channel: channel.clone(),
                content: content.clone(),
                author: author.clone(),
                timestamp: timestamp.clone(),
            },
            Event::MessageEdited { id, channel, content } => Event::MessageEdited {
                id: id.clone(),
                channel: channel.clone(),
                content: content.clone(),
            },
            Event::MessageDeleted { id, channel } => Event::MessageDeleted {
                id: id.clone(),
                channel: channel.clone(),
            },
            Event::Typing { channel, user } => Event::Typing {
                channel: channel.clone(),
                user: user.clone(),
            },
            Event::UserJoined { user } => Event::UserJoined { user: user.clone() },
            Event::UserLeft { user } => Event::UserLeft { user: user.clone() },
            Event::VoiceJoin { channel_id, peer_id, username } => Event::VoiceJoin {
                channel_id: channel_id.clone(),
                peer_id: peer_id.clone(),
                username: username.clone(),
            },
            Event::VoiceLeave { channel_id, peer_id } => Event::VoiceLeave {
                channel_id: channel_id.clone(),
                peer_id: peer_id.clone(),
            },
            Event::VoiceOffer { channel_id, target_peer_id, peer_id, offer } => Event::VoiceOffer {
                channel_id: channel_id.clone(),
                target_peer_id: target_peer_id.clone(),
                peer_id: peer_id.clone(),
                offer: offer.clone(),
            },
            Event::VoiceAnswer { channel_id, target_peer_id, peer_id, answer } => (Event::VoiceAnswer {
                channel_id: channel_id.clone(),
                target_peer_id: target_peer_id.clone(),
                peer_id: peer_id.clone(),
                answer: answer.clone(),
            }),
            Event::VoiceIceCandidate { channel_id, target_peer_id, peer_id, candidate } => (Event::VoiceIceCandidate {
                channel_id: channel_id.clone(),
                target_peer_id: target_peer_id.clone(),
                peer_id: peer_id.clone(),
                candidate: candidate.clone(),
            }),
            Event::VoiceHeartbeat { channel_id, peer_id } => Event::VoiceHeartbeat {
                channel_id: channel_id.clone(),
                peer_id: peer_id.clone(),
            },
            Event::PresenceUpdate { user_id, status } => Event::PresenceUpdate {
                user_id: user_id.clone(),
                status: status.clone(),
            },
            Event::VoiceUserJoined { peer_id, username, channel_id } => Event::VoiceUserJoined {
                peer_id: peer_id.clone(),
                username: username.clone(),
                channel_id: channel_id.clone(),
            },
            Event::VoiceUserLeft { peer_id, channel_id } => Event::VoiceUserLeft {
                peer_id: peer_id.clone(),
                channel_id: channel_id.clone(),
            },
        }
    }
}

/// What an inbound event turns into before fan-out:
/// - a heartbeat is consumed (it only matters for liveness bookkeeping);
/// - a voice join is rewritten to the server-synthesized joined event;
/// - a voice leave is rewritten to the server-synthesized left event;
/// - everything else is republished verbatim, signaling payloads
///   included (every subscriber receives them; receivers filter by
///   target peer id).
pub open spec fn spec_rewrite_inbound(e: Event) -> Option<Event> {
    match e {
        Event::VoiceHeartbeat { .. } => None,
        Event::VoiceJoin { channel_id, peer_id, username } => Some(
            Event::VoiceUserJoined { peer_id, username, channel_id },
        ),
        Event::VoiceLeave { channel_id, peer_id } => Some(
            Event::VoiceUserLeft { peer_id, channel_id },
        ),
        _ => Some(e),
    }
}

/// Applies the inbound rewrite rules; `None` means the event is consumed
/// and nothing is republished.
pub fn rewrite_inbound(e: Event) -> (r: Option<Event>)
    ensures
        r == spec_rewrite_inbound(e),
{
    match e {
        Event::VoiceHeartbeat { .. } => None,
        Event::VoiceJoin { channel_id, peer_id, username } => Some(
            Event::VoiceUserJoined { peer_id, username, channel_id },
        ),
        Event::VoiceLeave { channel_id, peer_id } => Some(
            Event::VoiceUserLeft { peer_id, channel_id },
        ),
        other => Some(other),
    }
}

} // verus!
