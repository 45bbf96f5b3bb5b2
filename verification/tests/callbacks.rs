use nt::callback::{CallbackRegistry, CallbackType, ConnectionCallbackType};
use nt::ws::{contains, is_websocket_request, offers_v4, to_lower, ServerHeaderCallback};

#[test]
fn callbacks_run_in_the_order_of_registration() {
    let mut registry = CallbackRegistry::new();
    assert_eq!(registry.callbacks(CallbackType::Add), Vec::<usize>::new());
    assert_eq!(registry.add_callback(CallbackType::Add), Some(0));
    assert_eq!(registry.add_callback(CallbackType::Update), Some(1));
    assert_eq!(registry.add_callback(CallbackType::Add), Some(2));
    assert_eq!(
        registry.add_connection_callback(ConnectionCallbackType::ClientConnected),
        Some(3)
    );
    assert_eq!(registry.add_callback(CallbackType::Add), Some(4));
    assert_eq!(registry.callbacks(CallbackType::Add), vec![0, 2, 4]);
    assert_eq!(registry.callbacks(CallbackType::Update), vec![1]);
    assert_eq!(registry.callbacks(CallbackType::Delete), Vec::<usize>::new());
    assert_eq!(
        registry.connection_callbacks(ConnectionCallbackType::ClientConnected),
        vec![3]
    );
    assert_eq!(
        registry.connection_callbacks(ConnectionCallbackType::ClientDisconnected),
        Vec::<usize>::new()
    );
}

#[test]
fn callback_kinds_have_their_own_keys() {
    assert_eq!(CallbackType::Add.to_code(), 0);
    assert_eq!(CallbackType::Delete.to_code(), 1);
    assert_eq!(CallbackType::Update.to_code(), 2);
    assert_eq!(ConnectionCallbackType::ClientConnected.to_code(), 3);
    assert_eq!(ConnectionCallbackType::ClientDisconnected.to_code(), 4);
}

#[test]
fn the_subprotocol_is_found_in_any_case() {
    let callback = ServerHeaderCallback;
    assert!(callback.accepts(b"networktables"));
    assert!(callback.accepts(b"NetworkTables"));
    assert!(callback.accepts(b"NETWORKTABLES"));
    assert!(callback.accepts(b"chat, NetworkTables"));
    assert!(callback.accepts(b"xnetworktablesx"));
    assert!(callback.accepts(b"networktables.first.wpi.edu"));
    assert!(!callback.accepts(b""));
    assert!(!callback.accepts(b"networktable"));
    assert!(!callback.accepts(b"network tables"));
    assert!(!callback.accepts(b"etworktables"));
    assert!(!callback.accepts(b"chat"));
    assert!(!callback.accepts(b"networktablez and more"));
}

#[test]
fn only_ascii_capitals_are_lowered() {
    assert_eq!(to_lower(b'A'), b'a');
    assert_eq!(to_lower(b'Z'), b'z');
    assert_eq!(to_lower(b'a'), b'a');
    assert_eq!(to_lower(b'@'), b'@');
    assert_eq!(to_lower(b'['), b'[');
    assert_eq!(to_lower(0xc4), 0xc4);
}

#[test]
fn an_upgrade_request_starts_with_get() {
    assert!(is_websocket_request(b"GET "));
    assert!(is_websocket_request(b"GET"));
    assert!(!is_websocket_request(b"GE"));
    assert!(!is_websocket_request(b"get "));
    assert!(!is_websocket_request(&[0x01, 0x03, 0x00, 0x02]));
    assert!(!is_websocket_request(b""));
}

#[test]
fn the_subprotocol_of_revision_four_is_found_letter_for_letter() {
    assert!(offers_v4(b"networktables.first.wpi.edu"));
    assert!(offers_v4(b"v1, networktables.first.wpi.edu;q=1"));
    assert!(!offers_v4(b"NetworkTables.first.wpi.edu"));
    assert!(!offers_v4(b"networktables.first.wpi.ed"));
    assert!(!offers_v4(b""));
    assert!(contains(b"abc", b""));
    assert!(contains(b"", b""));
    assert!(contains(b"abcabd", b"abd"));
    assert!(!contains(b"abcabd", b"abe"));
    assert!(!contains(b"ab", b"abc"));
}
