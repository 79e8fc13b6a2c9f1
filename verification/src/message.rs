//! Core data types shared by the connection pipeline.

use vstd::prelude::*;

verus! {

/// A user as the durable store resolves it from a session token. Identity is
/// always resolved server-side; nothing here ever comes from client input.
pub struct User {
    pub id: i32,
    pub username: String,
    pub password_hash: String,
}

/// An accepted chat message in its persisted and broadcast form. The
/// identity fields are filled from the resolved [`User`], never from the
/// inbound payload.
pub struct ChatMessage {
    pub user_id: i32,
    pub username: String,
    pub content: String,
}

} // verus!
