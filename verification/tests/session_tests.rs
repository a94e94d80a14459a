use chat_hub::chat_server::{ChatServer, Connect, Message};
use chat_hub::websocket::{
    Action, Frame, SessionState, WebSocketSession, CLIENT_TIMEOUT_MS, HEARTBEAT_INTERVAL_MS,
};

fn active_session(id: u64, now: u64) -> WebSocketSession {
    let mut s = WebSocketSession::new(None, now);
    let acts = s.on_connect_reply(Some(id));
    assert!(acts.is_empty());
    assert_eq!(s.state, SessionState::Active);
    s
}

#[test]
fn new_session_is_handshaking_with_sentinel_id() {
    let s = WebSocketSession::new(Some(String::from("alice")), 1000);
    assert_eq!(s.id, 0);
    assert_eq!(s.hb, 1000);
    assert_eq!(s.state, SessionState::Handshaking);
}

#[test]
fn failed_registration_stops_the_session() {
    let mut s = WebSocketSession::new(None, 0);
    let acts = s.on_connect_reply(None);
    assert_eq!(s.state, SessionState::Closing);
    assert_eq!(acts, vec![Action::Stop]);
}

#[test]
fn ping_records_heartbeat_and_echoes_pong() {
    let mut s = active_session(5, 0);
    let acts = s.handle_frame(Frame::Ping(vec![1, 2, 3]), 400);
    assert_eq!(s.hb, 400);
    assert_eq!(s.state, SessionState::Active);
    assert_eq!(acts, vec![Action::Pong(vec![1, 2, 3])]);
}

#[test]
fn pong_records_heartbeat_silently() {
    let mut s = active_session(5, 0);
    let acts = s.handle_frame(Frame::Pong(vec![]), 700);
    assert_eq!(s.hb, 700);
    assert!(acts.is_empty());
}

#[test]
fn text_frame_forwards_decoded_message() {
    let mut s = active_session(9, 0);
    let acts = s.handle_frame(
        Frame::Text(String::from("{\"username\":\"alice\",\"message\":\"hi\"}")),
        50,
    );
    assert_eq!(s.name.as_deref(), Some("alice"));
    assert_eq!(s.state, SessionState::Active);
    assert_eq!(acts.len(), 1);
    match &acts[0] {
        Action::Forward(m) => {
            assert_eq!(m.id, 9);
            assert_eq!(m.name.as_deref(), Some("alice"));
            assert_eq!(m.msg, "hi");
        },
        other => panic!("expected a forward action, got {other:?}"),
    }
}

#[test]
fn undecodable_text_is_discarded_and_session_stays_connected() {
    let mut s = active_session(9, 0);
    let acts = s.handle_frame(Frame::Text(String::from("not json")), 50);
    assert!(acts.is_empty());
    assert_eq!(s.state, SessionState::Active);
    assert_eq!(s.name, None);
}

#[test]
fn binary_frame_is_discarded() {
    let mut s = active_session(9, 0);
    let acts = s.handle_frame(Frame::Binary(vec![0xde, 0xad]), 50);
    assert!(acts.is_empty());
    assert_eq!(s.state, SessionState::Active);
}

#[test]
fn close_frame_echoes_and_stops() {
    let mut s = active_session(9, 0);
    let acts = s.handle_frame(Frame::Close, 50);
    assert_eq!(acts, vec![Action::EchoClose, Action::Stop]);
    assert_eq!(s.state, SessionState::Closing);
}

#[test]
fn transport_error_stops() {
    let mut s = active_session(9, 0);
    let acts = s.handle_frame(Frame::Error, 50);
    assert_eq!(acts, vec![Action::Stop]);
    assert_eq!(s.state, SessionState::Closing);
}

#[test]
fn heartbeat_within_timeout_pings() {
    let mut s = active_session(9, 0);
    let acts = s.heartbeat_tick(HEARTBEAT_INTERVAL_MS);
    assert_eq!(acts, vec![Action::Ping(vec![])]);
    assert_eq!(s.state, SessionState::Active);
    // the boundary itself is still tolerated
    let acts = s.heartbeat_tick(CLIENT_TIMEOUT_MS);
    assert_eq!(acts, vec![Action::Ping(vec![])]);
}

#[test]
fn silent_session_is_evicted_and_leaves_the_registry() {
    let mut hub = ChatServer::new();
    let (id, _) = hub.handle_connect(Connect { name: None, addr: 10 });
    let mut s = WebSocketSession::new(None, 0);
    let _ = s.on_connect_reply(Some(id));
    assert!(hub.contains_id(id));

    let acts = s.heartbeat_tick(CLIENT_TIMEOUT_MS + 1);
    assert_eq!(s.state, SessionState::Closing);
    assert_eq!(acts.len(), 2);
    match &acts[0] {
        Action::HubDisconnect(d) => {
            assert_eq!(d.id, id);
            let _ = hub.handle_disconnect(*d);
        },
        other => panic!("expected a hub disconnect, got {other:?}"),
    }
    assert_eq!(acts[1], Action::Stop);
    assert!(!hub.contains_id(id));
    assert_eq!(hub.session_count(), 0);
}

#[test]
fn hub_message_is_forwarded_verbatim() {
    let s = active_session(9, 0);
    let a = s.on_hub_message(Message(String::from("payload")));
    assert_eq!(a, Action::SendText(String::from("payload")));
}

#[test]
fn stopping_reports_own_id_and_closes() {
    let mut s = active_session(9, 0);
    let d = s.on_stopping();
    assert_eq!(d.id, 9);
    assert_eq!(s.state, SessionState::Closed);
}

#[test]
fn frames_after_close_are_ignored() {
    let mut s = active_session(9, 123);
    let _ = s.handle_frame(Frame::Close, 200);
    let acts = s.handle_frame(Frame::Ping(vec![7]), 300);
    assert!(acts.is_empty());
    assert_eq!(s.hb, 123);
    assert_eq!(s.state, SessionState::Closing);
}

#[test]
fn two_sessions_message_reaches_only_the_other() {
    let mut hub = ChatServer::new();
    let (a_id, _) = hub.handle_connect(Connect { name: None, addr: 10 });
    let (b_id, _) = hub.handle_connect(Connect { name: None, addr: 11 });
    let mut a = WebSocketSession::new(None, 0);
    let _ = a.on_connect_reply(Some(a_id));
    let mut b = WebSocketSession::new(None, 0);
    let _ = b.on_connect_reply(Some(b_id));

    let acts = a.handle_frame(
        Frame::Text(String::from("{\"username\":\"alice\",\"message\":\"hi\"}")),
        5,
    );
    let m = match acts.into_iter().next() {
        Some(Action::Forward(m)) => m,
        other => panic!("expected a forward action, got {other:?}"),
    };
    let deliveries = hub.handle_client_message(m);
    assert_eq!(deliveries.len(), 1);
    assert_eq!(deliveries[0].addr, 11);
    let expected = format!("{{\"id\":{a_id},\"username\":\"alice\",\"message\":\"hi\"}}");
    assert_eq!(deliveries[0].msg.0, expected);

    // B forwards the payload verbatim to its peer
    let act = b.on_hub_message(deliveries.into_iter().next().unwrap().msg);
    assert_eq!(act, Action::SendText(expected));
}
