//! Wire shapes of the surrounding backend: the request and response
//! bodies whose payloads ride the fan-out path or sit at its edges.
//! They are carried, not interpreted — the durable CRUD handlers
//! behind them are outside collaborators — so they hold plain values
//! and make no promises beyond their shape.

use vstd::prelude::*;

verus! {

/// A user as the backend presents one to peers.
#[derive(Debug)]
pub struct UserInfo {
    pub id: String,
    pub username: String,
    pub discriminator: String,
    pub email: String,
}

/// A direct-message conversation and the other participant.
#[derive(Debug)]
pub struct DirectMessage {
    pub id: String,
    pub user1_id: String,
    pub user2_id: String,
    pub other_user: UserInfo,
}

/// One message of a direct-message conversation.
#[derive(Debug)]
pub struct DMMessage {
    pub id: String,
    pub dm_id: String,
    pub author_id: String,
    pub author: String,
    pub author_discriminator: String,
    pub text: String,
    pub edited_at: Option<String>,
    pub created_at: String,
}

/// The body of a send call on a direct-message conversation.
#[derive(Debug)]
pub struct SendDMRequest {
    pub text: String,
}

/// The body of an edit call on a message.
#[derive(Debug)]
pub struct EditMessageRequest {
    pub text: String,
}

/// An attachment named by a send call.
#[derive(Debug)]
pub struct SendAttachment {
    pub filename: String,
    pub file_url: String,
    pub file_type: Option<String>,
    pub file_size: Option<i64>,
}

/// The body of a send call on a channel.
#[derive(Debug)]
pub struct SendMessageRequest {
    pub text: String,
    pub author: String,
    pub author_discriminator: String,
    pub attachments: Option<Vec<SendAttachment>>,
}

/// The claims of a caller's bearer token, as validated upstream.
#[derive(Debug)]
pub struct Claims {
    pub sub: String,
    pub exp: usize,
}

/// The body of a registration call.
#[derive(Debug)]
pub struct RegisterRequest {
    pub email: String,
    pub username: String,
    pub password: String,
}

/// The body of a login call.
#[derive(Debug)]
pub struct LoginRequest {
    pub email: String,
    pub password: String,
}

/// The body of a create-guild call.
#[derive(Debug)]
pub struct CreateGuildRequest {
    pub name: String,
}

/// The body of a rename-guild call.
#[derive(Debug)]
pub struct UpdateGuildRequest {
    pub name: String,
}

} // verus!
