use thermo::client::{
    client_action, required_setting, websocket_url, ClientAction, ClientMessage, SettingError,
    UrlError,
};

#[test]
fn websocket_url_from_http() {
    assert_eq!(websocket_url("http://localhost:3000").ok().unwrap(), "ws://localhost:3000/print/ws");
    assert_eq!(
        websocket_url("https://example.com/some/path?x=1#frag").ok().unwrap(),
        "wss://example.com/print/ws"
    );
    assert_eq!(websocket_url("ws://h:8080").ok().unwrap(), "ws://h:8080/print/ws");
    assert_eq!(websocket_url("wss://h/a").ok().unwrap(), "wss://h/print/ws");
}

#[test]
fn websocket_url_errors() {
    assert!(matches!(websocket_url("not a url"), Err(UrlError::Invalid)));
    assert!(matches!(websocket_url("ftp://h"), Err(UrlError::UnsupportedScheme(s)) if s == "ftp"));
}

#[test]
fn client_actions() {
    assert!(matches!(client_action(ClientMessage::Text("job".to_string())), ClientAction::Print(t) if t == "job"));
    assert!(matches!(client_action(ClientMessage::Binary), ClientAction::Ignore));
    assert!(matches!(client_action(ClientMessage::Ping), ClientAction::Continue));
    assert!(matches!(client_action(ClientMessage::Pong), ClientAction::Continue));
    assert!(matches!(client_action(ClientMessage::Frame), ClientAction::Continue));
    assert!(matches!(client_action(ClientMessage::Close), ClientAction::Stop));
}

#[test]
fn required_settings() {
    assert!(matches!(
        required_setting("SERVER_URL", Some(" http://x ".to_string())),
        Ok(v) if v == " http://x "
    ));
    assert!(matches!(
        required_setting("SERVER_URL", Some(" \t".to_string())),
        Err(SettingError::Empty(n)) if n == "SERVER_URL"
    ));
    assert!(matches!(
        required_setting("SERVER_URL", None),
        Err(SettingError::Missing(n)) if n == "SERVER_URL"
    ));
}

#[test]
fn a_connection_prints_texts_in_order_until_closed() {
    let messages = vec![
        ClientMessage::Text("first".to_string()),
        ClientMessage::Ping,
        ClientMessage::Binary,
        ClientMessage::Text("second".to_string()),
        ClientMessage::Close,
        ClientMessage::Text("never".to_string()),
    ];
    let mut printed = Vec::new();
    for message in messages {
        match client_action(message) {
            ClientAction::Print(text) => printed.push(text),
            ClientAction::Stop => break,
            _ => {}
        }
    }
    assert_eq!(printed, vec!["first".to_string(), "second".to_string()]);
}

#[test]
fn websocket_url_keeps_host_port_and_userinfo() {
    assert_eq!(
        websocket_url("http://user:pw@example.com:8080/x?y#z").ok().unwrap(),
        "ws://user:pw@example.com:8080/print/ws"
    );
    assert_eq!(websocket_url("HTTPS://Example.COM").ok().unwrap(), "wss://example.com/print/ws");
}
