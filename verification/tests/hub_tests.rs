use chat_hub::chat_server::{ChatServer, Connect, Disconnect};
use chat_hub::codec::ClientMessage;

fn connect(hub: &mut ChatServer, addr: u64) -> u64 {
    let (id, _) = hub.handle_connect(Connect { name: None, addr });
    id
}

#[test]
fn connects_grow_registry_with_distinct_ids() {
    let mut hub = ChatServer::new();
    assert_eq!(hub.session_count(), 0);
    assert_eq!(hub.visitor_count(), 0);
    let a = connect(&mut hub, 10);
    let b = connect(&mut hub, 11);
    let c = connect(&mut hub, 12);
    assert_ne!(a, 0);
    assert_ne!(b, 0);
    assert_ne!(c, 0);
    assert_ne!(a, b);
    assert_ne!(a, c);
    assert_ne!(b, c);
    assert_eq!(hub.session_count(), 3);
    assert_eq!(hub.visitor_count(), 3);
    assert!(hub.contains_id(a) && hub.contains_id(b) && hub.contains_id(c));
    assert!(hub.is_wf());
}

#[test]
fn first_connect_emits_no_deliveries() {
    let mut hub = ChatServer::new();
    let (_, deliveries) = hub.handle_connect(Connect { name: None, addr: 10 });
    assert!(deliveries.is_empty());
}

#[test]
fn second_connect_notifies_only_the_first() {
    let mut hub = ChatServer::new();
    let _a = connect(&mut hub, 10);
    let (_b, deliveries) = hub.handle_connect(Connect { name: None, addr: 11 });
    assert_eq!(deliveries.len(), 2);
    assert_eq!(deliveries[0].addr, 10);
    assert_eq!(deliveries[0].msg.0, "{\"id\":0,\"message\":\"Someone joined\"}");
    assert_eq!(deliveries[1].addr, 10);
    assert_eq!(deliveries[1].msg.0, "{\"id\":0,\"message\":\"Total visitors : 1\"}");
}

#[test]
fn disconnect_unknown_id_is_noop() {
    let mut hub = ChatServer::new();
    let a = connect(&mut hub, 10);
    let unknown = a.wrapping_add(1).max(1);
    let deliveries = hub.handle_disconnect(Disconnect { id: unknown });
    assert!(deliveries.is_empty());
    assert_eq!(hub.session_count(), 1);
    assert_eq!(hub.visitor_count(), 1);
    assert!(hub.contains_id(a));
}

#[test]
fn disconnect_removes_and_notifies_remaining() {
    let mut hub = ChatServer::new();
    let a = connect(&mut hub, 10);
    let _b = connect(&mut hub, 11);
    let deliveries = hub.handle_disconnect(Disconnect { id: a });
    assert!(!hub.contains_id(a));
    assert_eq!(hub.session_count(), 1);
    assert_eq!(deliveries.len(), 1);
    assert_eq!(deliveries[0].addr, 11);
    assert_eq!(deliveries[0].msg.0, "{\"id\":0,\"message\":\"Someone disconnected\"}");
    // the visitor counter never decreases
    assert_eq!(hub.visitor_count(), 2);
}

#[test]
fn duplicate_disconnect_is_silent() {
    let mut hub = ChatServer::new();
    let a = connect(&mut hub, 10);
    let _ = hub.handle_disconnect(Disconnect { id: a });
    let deliveries = hub.handle_disconnect(Disconnect { id: a });
    assert!(deliveries.is_empty());
    assert_eq!(hub.session_count(), 0);
}

#[test]
fn broadcast_skips_the_sender() {
    let mut hub = ChatServer::new();
    let a = connect(&mut hub, 10);
    let _b = connect(&mut hub, 11);
    let _c = connect(&mut hub, 12);
    let m = ClientMessage { id: a, name: Some(String::from("alice")), msg: String::from("hi") };
    let deliveries = hub.handle_client_message(m);
    assert_eq!(deliveries.len(), 2);
    let addrs: Vec<u64> = deliveries.iter().map(|d| d.addr).collect();
    assert!(addrs.contains(&11) && addrs.contains(&12));
    assert!(!addrs.contains(&10));
    let expected = format!("{{\"id\":{a},\"username\":\"alice\",\"message\":\"hi\"}}");
    for d in &deliveries {
        assert_eq!(d.msg.0, expected);
    }
}

#[test]
fn addr_of_returns_registered_handle() {
    let mut hub = ChatServer::new();
    let a = connect(&mut hub, 42);
    assert_eq!(hub.addr_of(a), Some(42));
    let _ = hub.handle_disconnect(Disconnect { id: a });
    assert_eq!(hub.addr_of(a), None);
}

#[test]
fn join_then_leave_notices_in_order() {
    let mut hub = ChatServer::new();
    let _b = connect(&mut hub, 20);
    let (a, join_deliveries) = hub.handle_connect(Connect { name: None, addr: 21 });
    let leave_deliveries = hub.handle_disconnect(Disconnect { id: a });
    let to_b: Vec<&str> = join_deliveries
        .iter()
        .chain(leave_deliveries.iter())
        .filter(|d| d.addr == 20)
        .map(|d| d.msg.0.as_str())
        .collect();
    assert_eq!(
        to_b,
        vec![
            "{\"id\":0,\"message\":\"Someone joined\"}",
            "{\"id\":0,\"message\":\"Total visitors : 1\"}",
            "{\"id\":0,\"message\":\"Someone disconnected\"}",
        ]
    );
}
