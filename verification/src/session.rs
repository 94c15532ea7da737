//! The per-connection state machine of the query server.
//!
//! Each accepted connection is handled independently: after an upgrade
//! handshake it serves queries in a loop — await one text message, score it
//! against the corpus, write the serialized result list back — until any
//! transport step fails, which closes that connection alone. The handler
//! drives I/O outside the library and asks [`session_step`] for every
//! transition, so the protocol itself is pinned down here.

use vstd::prelude::*;

verus! {

/// The states a connection passes through while it is served.
#[derive(PartialEq, Eq, Structural, Clone, Copy, Debug)]
pub enum SessionState {
    /// A transport connection is being accepted.
    Connecting,
    /// The upgrade handshake that establishes the text-message channel runs.
    Handshaking,
    /// Blocked until exactly one text message — the raw query — arrives.
    AwaitingQuery,
    /// The corpus is re-walked and re-scored for the received query.
    Scoring,
    /// The serialized ranked list is written back.
    Responding,
    /// The handler has terminated; nothing leaves this state.
    Closed,
}

/// The events a connection handler observes.
#[derive(PartialEq, Eq, Structural, Clone, Copy, Debug)]
pub enum SessionEvent {
    /// The listener produced a connection.
    Accepted,
    /// The upgrade handshake completed.
    HandshakeOk,
    /// The upgrade handshake failed; fatal to this connection only.
    HandshakeFailed,
    /// A text message with the query arrived.
    QueryArrived,
    /// Scoring finished and a reply is ready.
    ScoresReady,
    /// The reply was written successfully.
    ReplySent,
    /// A read or write on the channel failed, including a peer disconnect.
    TransportFailed,
}

/// The transition table: the serving cycle
/// `AwaitingQuery → Scoring → Responding → AwaitingQuery` after a successful
/// handshake, and `Closed` on any failure or out-of-protocol event. No event
/// leaves `Closed`.
pub open spec fn next_state(s: SessionState, e: SessionEvent) -> SessionState {
    match (s, e) {
        (SessionState::Connecting, SessionEvent::Accepted) => SessionState::Handshaking,
        (SessionState::Handshaking, SessionEvent::HandshakeOk) => SessionState::AwaitingQuery,
        (SessionState::AwaitingQuery, SessionEvent::QueryArrived) => SessionState::Scoring,
        (SessionState::Scoring, SessionEvent::ScoresReady) => SessionState::Responding,
        (SessionState::Responding, SessionEvent::ReplySent) => SessionState::AwaitingQuery,
        _ => SessionState::Closed,
    }
}

/// Advances a connection by one observed event, as [`next_state`] describes.
pub fn session_step(s: SessionState, e: SessionEvent) -> (r: SessionState)
    ensures
        r == next_state(s, e),
{
    match (s, e) {
        (SessionState::Connecting, SessionEvent::Accepted) => SessionState::Handshaking,
        (SessionState::Handshaking, SessionEvent::HandshakeOk) => SessionState::AwaitingQuery,
        (SessionState::AwaitingQuery, SessionEvent::QueryArrived) => SessionState::Scoring,
        (SessionState::Scoring, SessionEvent::ScoresReady) => SessionState::Responding,
        (SessionState::Responding, SessionEvent::ReplySent) => SessionState::AwaitingQuery,
        _ => SessionState::Closed,
    }
}

/// `Closed` is terminal: no event resurrects a closed connection.
pub proof fn lemma_closed_terminal(e: SessionEvent)
    ensures
        next_state(SessionState::Closed, e) == SessionState::Closed,
{
}

/// Every transport failure closes the connection, from every state, and a
/// failed handshake does the same: failures are isolated to the connection
/// that observed them.
pub proof fn lemma_failure_closes(s: SessionState)
    ensures
        next_state(s, SessionEvent::TransportFailed) == SessionState::Closed,
        next_state(s, SessionEvent::HandshakeFailed) == SessionState::Closed,
{
}

/// A successfully served query returns the connection to `AwaitingQuery`:
/// the serving loop can run forever on a healthy channel.
pub proof fn lemma_serving_cycle()
    ensures
        next_state(
            next_state(
                next_state(SessionState::AwaitingQuery, SessionEvent::QueryArrived),
                SessionEvent::ScoresReady,
            ),
            SessionEvent::ReplySent,
        ) == SessionState::AwaitingQuery,
{
}

} // verus!
