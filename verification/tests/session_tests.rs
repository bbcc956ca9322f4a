use gearbox_core::session::ConnectionInfo;
use gearbox_core::session::SessionError;
use gearbox_core::session::SessionEvent;
use gearbox_core::session::SessionManager;
use gearbox_core::session::TcpToolConfig;
use gearbox_core::client_id_for;
use gearbox_core::server_id_for;

fn fresh_manager() -> SessionManager {
    SessionManager::new(TcpToolConfig::default())
}

fn find_session(list: &[ConnectionInfo], id: &str) -> ConnectionInfo {
    list.iter()
        .find(|e| e.id == id)
        .expect("session should be listed")
        .clone()
}

#[test]
fn client_id_derivation() {
    assert_eq!(client_id_for("127.0.0.1", 9001), "client_127.0.0.1_9001");
    assert_eq!(client_id_for("example.test", 65535), "client_example.test_65535");
    assert_eq!(client_id_for("h", 0), "client_h_0");
}

#[test]
fn server_id_derivation() {
    assert_eq!(server_id_for(9100), "server_9100");
    assert_eq!(server_id_for(0), "server_0");
}

#[test]
fn default_config_values() {
    let c = TcpToolConfig::default();
    assert!(c.enabled);
    assert_eq!(c.default_client_host, "127.0.0.1");
    assert_eq!(c.default_client_port, 8080);
    assert_eq!(c.default_server_port, 8080);
    assert!(!c.auto_reconnect);
    assert_eq!(c.connection_timeout, 5000);
}

#[test]
fn update_config_replaces_record() {
    let mut m = fresh_manager();
    let mut c = TcpToolConfig::default();
    c.connection_timeout = 250;
    c.default_client_port = 9;
    m.update_config(c);
    let got = m.get_config();
    assert_eq!(got.connection_timeout, 250);
    assert_eq!(got.default_client_port, 9);
}

#[test]
fn connect_lists_connected_entry_with_zero_counters() {
    let mut m = fresh_manager();
    let id = m.connect_established(
        "127.0.0.1",
        9001,
        "127.0.0.1:50000".to_string(),
        "127.0.0.1:9001".to_string(),
    );
    assert_eq!(id, "client_127.0.0.1_9001");
    let list = m.list_sessions();
    assert_eq!(list.len(), 1);
    let e = find_session(&list, &id);
    assert_eq!(e.connection_type, "client");
    assert_eq!(e.status, "connected");
    assert_eq!(e.local_addr, "127.0.0.1:50000");
    assert_eq!(e.remote_addr.as_deref(), Some("127.0.0.1:9001"));
    assert_eq!(e.bytes_sent, 0);
    assert_eq!(e.bytes_received, 0);
}

#[test]
fn connect_emits_connection_established() {
    let mut m = fresh_manager();
    let id = m.connect_established(
        "10.0.0.1",
        80,
        "10.0.0.2:1234".to_string(),
        "10.0.0.1:80".to_string(),
    );
    let events = m.take_events();
    assert_eq!(events.len(), 1);
    match &events[0] {
        SessionEvent::ConnectionEstablished { info } => {
            assert_eq!(info.id, id);
            assert_eq!(info.status, "connected");
        },
        _ => panic!("expected a connection_established event"),
    }
    assert!(m.take_events().is_empty());
}

#[test]
fn listen_lists_listening_entry() {
    let mut m = fresh_manager();
    let id = m.listen_established(9100, "0.0.0.0:9100".to_string());
    assert_eq!(id, "server_9100");
    let list = m.list_sessions();
    assert_eq!(list.len(), 1);
    let e = find_session(&list, &id);
    assert_eq!(e.connection_type, "server");
    assert_eq!(e.status, "listening");
    assert_eq!(e.remote_addr, None);
    let events = m.take_events();
    assert!(matches!(&events[0], SessionEvent::ServerStarted { info } if info.id == "server_9100"));
}

#[test]
fn failed_listen_leaves_no_entry() {
    // A bind failure is surfaced by the transport layer before the
    // manager is ever touched: the registries stay as they were.
    let mut m = fresh_manager();
    let before = m.list_sessions().len();
    let err = SessionError::TransportError {
        message: "Server start failed: address already in use".to_string(),
    };
    assert_eq!(
        err.message(),
        "Server start failed: address already in use"
    );
    assert_eq!(m.list_sessions().len(), before);
    assert!(m.take_events().is_empty());
}

#[test]
fn send_scenario_counts_bytes_and_emits_event() {
    let mut m = fresh_manager();
    let id = m.connect_established(
        "127.0.0.1",
        9001,
        "127.0.0.1:50000".to_string(),
        "127.0.0.1:9001".to_string(),
    );
    assert!(m.prepare_send(&id).is_ok());
    m.record_send(&id, "ping");
    let e = find_session(&m.list_sessions(), &id);
    assert_eq!(e.bytes_sent, 4);
    let events = m.take_events();
    match events.last().expect("an event was announced") {
        SessionEvent::MessageSent { message } => {
            assert_eq!(message.connection_id, id);
            assert_eq!(message.content, "ping");
            assert_eq!(message.direction, "sent");
            assert_eq!(message.size, 4);
        },
        _ => panic!("expected a message_sent event"),
    }
}

#[test]
fn bytes_sent_accumulates_across_interleaved_sends() {
    let mut m = fresh_manager();
    let a = m.connect_established("h1", 1, "l1".to_string(), "r1".to_string());
    let b = m.connect_established("h2", 2, "l2".to_string(), "r2".to_string());
    m.record_send(&a, "one");
    m.record_send(&b, "xxxxx");
    m.record_send(&a, "four");
    m.record_send(&b, "y");
    m.record_send(&a, "!");
    let list = m.list_sessions();
    assert_eq!(find_session(&list, &a).bytes_sent, 8);
    assert_eq!(find_session(&list, &b).bytes_sent, 6);
}

#[test]
fn send_without_live_entry_fails_and_mutates_nothing() {
    let mut m = fresh_manager();
    let id = m.connect_established("h", 7, "l".to_string(), "r".to_string());
    m.disconnect(&id);
    let before: Vec<_> = m.list_sessions();
    let r = m.prepare_send(&id);
    assert!(matches!(r, Err(SessionError::SessionNotFound)));
    let r2 = m.prepare_send("client_unknown_1");
    assert!(matches!(r2, Err(SessionError::SessionNotFound)));
    let after = m.list_sessions();
    assert_eq!(before.len(), after.len());
    for (x, y) in before.iter().zip(after.iter()) {
        assert_eq!(x.id, y.id);
        assert_eq!(x.status, y.status);
        assert_eq!(x.bytes_sent, y.bytes_sent);
    }
}

#[test]
fn session_not_found_message() {
    assert_eq!(SessionError::SessionNotFound.message(), "Connection not found");
    assert_eq!(
        SessionError::UnsupportedOperation.message(),
        "Unsupported operation"
    );
}

#[test]
fn disconnect_keeps_tombstone_and_is_idempotent() {
    let mut m = fresh_manager();
    let id = m.connect_established(
        "127.0.0.1",
        9001,
        "127.0.0.1:50000".to_string(),
        "127.0.0.1:9001".to_string(),
    );
    m.disconnect(&id);
    let list = m.list_sessions();
    assert_eq!(list.len(), 1);
    assert_eq!(find_session(&list, &id).status, "disconnected");
    assert!(matches!(m.prepare_send(&id), Err(SessionError::SessionNotFound)));

    // The second disconnect changes nothing and raises no error.
    m.disconnect(&id);
    let list2 = m.list_sessions();
    assert_eq!(list2.len(), 1);
    assert_eq!(find_session(&list2, &id).status, "disconnected");
}

#[test]
fn disconnect_of_unknown_identifier_is_a_noop() {
    let mut m = fresh_manager();
    m.disconnect("client_missing_1");
    assert!(m.list_sessions().is_empty());
    assert!(m.take_events().is_empty());
}

#[test]
fn distinct_connects_do_not_interfere() {
    let mut m = fresh_manager();
    let a = m.connect_established("host-a", 1000, "la".to_string(), "ra".to_string());
    let b = m.connect_established("host-b", 1000, "lb".to_string(), "rb".to_string());
    let c = m.connect_established("host-a", 1001, "lc".to_string(), "rc".to_string());
    assert_ne!(a, b);
    assert_ne!(a, c);
    assert_ne!(b, c);
    let list = m.list_sessions();
    assert_eq!(list.len(), 3);
    assert_eq!(find_session(&list, &a).local_addr, "la");
    assert_eq!(find_session(&list, &b).local_addr, "lb");
    assert_eq!(find_session(&list, &c).local_addr, "lc");
}

#[test]
fn reconnect_overwrites_tombstone_under_same_identifier() {
    let mut m = fresh_manager();
    let id = m.connect_established("h", 5, "l1".to_string(), "r1".to_string());
    m.disconnect(&id);
    let id2 = m.connect_established("h", 5, "l2".to_string(), "r2".to_string());
    assert_eq!(id, id2);
    let list = m.list_sessions();
    assert_eq!(list.len(), 1);
    let e = find_session(&list, &id);
    assert_eq!(e.status, "connected");
    assert_eq!(e.local_addr, "l2");
    assert_eq!(e.bytes_sent, 0);
}

#[test]
fn event_buffer_is_bounded_and_never_blocks() {
    let mut m = fresh_manager();
    for port in 0..300u16 {
        m.listen_established(port, "0.0.0.0:0".to_string());
    }
    let events = m.take_events();
    assert_eq!(events.len(), 256);
    // The oldest events are the ones kept; later ones were dropped.
    assert!(matches!(&events[0], SessionEvent::ServerStarted { info } if info.id == "server_0"));
}
