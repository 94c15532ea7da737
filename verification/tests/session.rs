use docsearch::session::SessionEvent;
use docsearch::session::SessionState;
use docsearch::session::session_step;

#[test]
fn happy_path_reaches_the_serving_loop() {
    let s = SessionState::Connecting;
    let s = session_step(s, SessionEvent::Accepted);
    assert_eq!(s, SessionState::Handshaking);
    let s = session_step(s, SessionEvent::HandshakeOk);
    assert_eq!(s, SessionState::AwaitingQuery);
    let s = session_step(s, SessionEvent::QueryArrived);
    assert_eq!(s, SessionState::Scoring);
    let s = session_step(s, SessionEvent::ScoresReady);
    assert_eq!(s, SessionState::Responding);
    let s = session_step(s, SessionEvent::ReplySent);
    assert_eq!(s, SessionState::AwaitingQuery);
}

#[test]
fn handshake_failure_closes_the_connection() {
    let s = session_step(SessionState::Handshaking, SessionEvent::HandshakeFailed);
    assert_eq!(s, SessionState::Closed);
}

#[test]
fn transport_failure_closes_from_any_state() {
    for s in [
        SessionState::Connecting,
        SessionState::Handshaking,
        SessionState::AwaitingQuery,
        SessionState::Scoring,
        SessionState::Responding,
        SessionState::Closed,
    ] {
        assert_eq!(session_step(s, SessionEvent::TransportFailed), SessionState::Closed);
    }
}

#[test]
fn closed_is_terminal() {
    for e in [
        SessionEvent::Accepted,
        SessionEvent::HandshakeOk,
        SessionEvent::HandshakeFailed,
        SessionEvent::QueryArrived,
        SessionEvent::ScoresReady,
        SessionEvent::ReplySent,
        SessionEvent::TransportFailed,
    ] {
        assert_eq!(session_step(SessionState::Closed, e), SessionState::Closed);
    }
}

#[test]
fn out_of_protocol_events_close() {
    assert_eq!(
        session_step(SessionState::AwaitingQuery, SessionEvent::HandshakeOk),
        SessionState::Closed
    );
    assert_eq!(
        session_step(SessionState::Scoring, SessionEvent::QueryArrived),
        SessionState::Closed
    );
}
