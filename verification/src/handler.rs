//! Per-connection message pipeline.
//!
//! A connection splits into a reader and a writer task; the reader handles
//! one inbound frame at a time: parse, check the session cache, resolve the
//! identity at the durable store, persist, then publish the broadcast form.
//! The waiting — sockets, store calls — happens outside this crate; the
//! functions here take each outside answer as a plain value and make every
//! decision, so the whole decision path is verified.
//!
//! Frame-level failures (malformed input, unknown or stale token, a failed
//! save) drop the frame and leave the connection open; only a socket-level
//! failure of either task tears the connection down.

use vstd::prelude::*;

use crate::cache::SessionCache;
use crate::message::ChatMessage;
use crate::message::User;
use crate::wire::WireMessage;
use crate::wire::parse_chat_message;
use crate::wire::render_broadcast;
use crate::wire::spec_parse_message;
use crate::wire::spec_render_broadcast;

verus! {

/// Lifecycle of one connection.
#[derive(Clone, Copy, Debug, PartialEq, Eq, Structural)]
pub enum ConnState {
    /// Accepted, not yet subscribed to the bus.
    Connecting,
    /// Reader and writer running; frames are handled.
    Open,
    /// One subtask ended; the sibling and the subscription are being torn
    /// down.
    Closing,
    /// Terminal.
    Closed,
}

/// What happens to a connection.
#[derive(Clone, Copy, Debug, PartialEq, Eq, Structural)]
pub enum ConnEvent {
    /// The bus subscription exists and both subtasks run.
    Subscribed,
    /// One inbound frame was handled, accepted or not.
    FrameHandled,
    /// The reader or the writer ended, by socket failure or stream end.
    SubtaskEnded,
    /// Sibling task and subscription are released.
    CleanupDone,
}

/// The connection lifecycle: `Connecting → Open → Closing → Closed`. Frame
/// handling never moves the state: only a subtask's end starts teardown.
pub open spec fn spec_conn_step(state: ConnState, event: ConnEvent) -> ConnState {
    match (state, event) {
        (ConnState::Connecting, ConnEvent::Subscribed) => ConnState::Open,
        (ConnState::Open, ConnEvent::SubtaskEnded) => ConnState::Closing,
        (ConnState::Closing, ConnEvent::CleanupDone) => ConnState::Closed,
        (s, _) => s,
    }
}

/// Advances the connection lifecycle by one event.
pub fn conn_step(state: ConnState, event: ConnEvent) -> (next: ConnState)
    ensures
        next == spec_conn_step(state, event),
{
    match (state, event) {
        (ConnState::Connecting, ConnEvent::Subscribed) => ConnState::Open,
        (ConnState::Open, ConnEvent::SubtaskEnded) => ConnState::Closing,
        (ConnState::Closing, ConnEvent::CleanupDone) => ConnState::Closed,
        (s, _) => s,
    }
}

/// The verdict on one inbound frame before the store is consulted.
pub enum FrameCheck {
    /// The frame does not match the wire grammar; it is logged and dropped.
    Malformed,
    /// The frame parsed but its token is not in the session cache; dropped.
    UnknownToken,
    /// The token is cached; the message may go on to identity resolution.
    Accepted { message: WireMessage },
}

/// Parses one text frame and checks its token against the session cache —
/// the check that runs on every message, so revocation applies from the very
/// next frame. No store call and no broadcast may happen unless the result
/// is `Accepted`.
pub fn check_frame(cache: &SessionCache, text: &str) -> (r: FrameCheck)
    ensures
        match r {
            FrameCheck::Malformed => spec_parse_message(text@) is None,
            FrameCheck::UnknownToken => spec_parse_message(text@) matches Some(p)
                && !cache@.contains(p.0),
            FrameCheck::Accepted { message } => spec_parse_message(text@) == Some(
                (message.session_id@, message.content@),
            ) && cache@.contains(message.session_id@),
        },
{
    match parse_chat_message(text) {
        None => FrameCheck::Malformed,
        Some(message) => {
            if cache.contains(message.session_id.as_str()) {
                FrameCheck::Accepted { message }
            } else {
                FrameCheck::UnknownToken
            }
        },
    }
}

/// Builds the persisted/broadcast form of an accepted message from the
/// store's answer. The identity comes from the resolved user alone; a token
/// the store no longer knows (a narrow revocation race) yields nothing and
/// the frame is dropped.
pub fn resolve_message(resolved: Option<User>, wire: WireMessage) -> (r: Option<ChatMessage>)
    ensures
        match resolved {
            None => r is None,
            Some(user) => r == Some(
                (ChatMessage { user_id: user.id, username: user.username, content: wire.content }),
            ),
        },
{
    match resolved {
        None => None,
        Some(user) => Some(
            ChatMessage { user_id: user.id, username: user.username, content: wire.content },
        ),
    }
}

/// The text to publish after the save attempt: the rendered broadcast frame
/// if the message was persisted, nothing otherwise — a message that could
/// not be saved is never broadcast.
pub fn broadcast_text(persisted: bool, message: &ChatMessage) -> (r: Option<String>)
    ensures
        match r {
            Some(t) => persisted && t@ == spec_render_broadcast(
                message.username@,
                message.content@,
            ),
            None => !persisted,
        },
{
    if persisted {
        Some(render_broadcast(message.username.as_str(), message.content.as_str()))
    } else {
        None
    }
}

/// Whether a frame is allowed to reach the store: it parses and its token is
/// in the cache.
pub open spec fn may_persist(cache: Set<Seq<char>>, text: Seq<char>) -> bool {
    spec_parse_message(text) matches Some(p) && cache.contains(p.0)
}

/// End-to-end outcome of one inbound frame, given the cache contents, the
/// store's resolution answer and the save result: the broadcast text, or
/// nothing.
pub open spec fn frame_outcome(
    cache: Set<Seq<char>>,
    text: Seq<char>,
    resolved: Option<User>,
    persist_ok: bool,
) -> Option<Seq<char>> {
    match spec_parse_message(text) {
        None => None,
        Some(p) => if !cache.contains(p.0) {
            None
        } else {
            match resolved {
                None => None,
                Some(user) => if persist_ok {
                    Some(spec_render_broadcast(user.username@, p.1))
                } else {
                    None
                },
            }
        },
    }
}

/// An authenticated, resolvable, persisted frame is broadcast with the
/// resolved user's name. The username in the output comes from the store's
/// answer alone: the wire grammar never reads identity fields from the
/// payload, so whatever a client forges there cannot reach the broadcast.
pub proof fn lemma_broadcast_uses_resolved_identity(
    cache: Set<Seq<char>>,
    text: Seq<char>,
    user: User,
)
    requires
        may_persist(cache, text),
    ensures
        frame_outcome(cache, text, Some(user), true) == Some(
            spec_render_broadcast(user.username@, spec_parse_message(text)->Some_0.1),
        ),
{
}

/// A frame whose token is absent from the cache has no effect: it may not
/// reach the store, and no broadcast comes of it, whatever the store would
/// have answered.
pub proof fn lemma_unknown_token_no_effect(
    cache: Set<Seq<char>>,
    text: Seq<char>,
    resolved: Option<User>,
    persist_ok: bool,
)
    requires
        spec_parse_message(text) matches Some(p) ==> !cache.contains(p.0),
    ensures
        !may_persist(cache, text),
        frame_outcome(cache, text, resolved, persist_ok) is None,
{
}

/// Frame handling never closes a connection: an open connection stays open
/// after any frame, malformed or not; only a subtask's end starts teardown.
pub proof fn lemma_frame_keeps_connection_open()
    ensures
        spec_conn_step(ConnState::Open, ConnEvent::FrameHandled) == ConnState::Open,
        forall|e: ConnEvent|
            spec_conn_step(ConnState::Open, e) == ConnState::Closing ==> e
                == ConnEvent::SubtaskEnded,
{
}

} // verus!
