use tictactoe::handshake::{is_not_socket_request, websocket_accept, UpgradeRequest};

fn browser_request() -> UpgradeRequest {
    UpgradeRequest {
        is_get: true,
        http_11: true,
        connection: Some(String::from("keep-alive, Upgrade")),
        upgrade: Some(String::from("websocket")),
        version: Some(String::from("13")),
        key: Some(Vec::from("dGhlIHNhbXBsZSBub25jZQ==".as_bytes())),
        target: String::from("/socket"),
    }
}

#[test]
fn browser_request_asks_for_the_socket() {
    let request = browser_request();
    assert!(!is_not_socket_request(&request));
    assert_eq!(websocket_accept(&request), Some(String::from("s3pPLMBiTxaQ9kYGzzhZRbK+xOo=")));
}

#[test]
fn accept_key_depends_on_the_key() {
    let mut request = browser_request();
    request.key = Some(Vec::from("x3JJHMbDL1EzLkh9GBhXDw==".as_bytes()));
    assert_eq!(websocket_accept(&request), Some(String::from("HSmrc0sMlYUkAGmm5OPpG2HaGWk=")));
    request.key = Some(Vec::new());
    let accept = websocket_accept(&request).unwrap();
    assert_eq!(accept.len(), 28);
    assert_ne!(accept, "s3pPLMBiTxaQ9kYGzzhZRbK+xOo=");
}

#[test]
fn other_method_or_old_version_is_no_socket_request() {
    let mut request = browser_request();
    request.is_get = false;
    assert!(is_not_socket_request(&request));
    assert_eq!(websocket_accept(&request), None);
    let mut request = browser_request();
    request.http_11 = false;
    assert!(is_not_socket_request(&request));
    assert_eq!(websocket_accept(&request), None);
}

#[test]
fn missing_header_is_no_socket_request() {
    let mut request = browser_request();
    request.connection = None;
    assert!(is_not_socket_request(&request));
    let mut request = browser_request();
    request.upgrade = None;
    assert!(is_not_socket_request(&request));
    let mut request = browser_request();
    request.version = None;
    assert!(is_not_socket_request(&request));
    let mut request = browser_request();
    request.key = None;
    assert!(is_not_socket_request(&request));
    assert_eq!(websocket_accept(&request), None);
}

#[test]
fn other_target_is_no_socket_request() {
    for target in ["/", "/socket/", "/Socket", "/socket?x=1", "socket", "", "/app.js"] {
        let mut request = browser_request();
        request.target = String::from(target);
        assert!(is_not_socket_request(&request));
        assert_eq!(websocket_accept(&request), None);
    }
}

#[test]
fn other_version_is_no_socket_request() {
    for version in ["", "8", "12", "14", "013", "13 ", " 13", "13, 8"] {
        let mut request = browser_request();
        request.version = Some(String::from(version));
        assert!(is_not_socket_request(&request));
    }
}

#[test]
fn upgrade_header_is_read_without_case() {
    for upgrade in ["websocket", "WebSocket", "WEBSOCKET", "wEbSoCkEt"] {
        let mut request = browser_request();
        request.upgrade = Some(String::from(upgrade));
        assert!(!is_not_socket_request(&request));
    }
    for upgrade in
        ["", "websocket ", " websocket", "websockets", "web socket", "h2c", "websocke\u{212a}"]
    {
        let mut request = browser_request();
        request.upgrade = Some(String::from(upgrade));
        assert!(is_not_socket_request(&request));
    }
}

#[test]
fn connection_header_names_upgrade_in_one_of_its_pieces() {
    for connection in [
        "Upgrade",
        "upgrade",
        "UPGRADE",
        "keep-alive, Upgrade",
        "keep-alive,upgrade",
        "Upgrade, keep-alive",
        "upgrade keep-alive",
        " upgrade",
        "upgrade ",
        ",,upgrade,,",
        "a,b, c ,UpGrAdE",
    ] {
        let mut request = browser_request();
        request.connection = Some(String::from(connection));
        assert!(!is_not_socket_request(&request));
    }
    for connection in [
        "",
        " ",
        ",",
        "keep-alive",
        "upgraded",
        "xupgrade",
        "up grade",
        "upgrade;q=1",
        "upgrade\t",
        "close, upgrad",
        "upgrad,e",
        "\u{fc}pgrade",
    ] {
        let mut request = browser_request();
        request.connection = Some(String::from(connection));
        assert!(is_not_socket_request(&request));
    }
}

#[test]
fn connection_header_is_cut_as_by_splitting() {
    let pieces =
        ["", " ", ",", "Upgrade", "upgrade", "up", "grade", "x", "UPGRADE,", " keep-alive"];
    for first in pieces {
        for second in pieces {
            for third in pieces {
                let header = format!("{}{}{}", first, second, third);
                let expected = header
                    .split(|c| c == ' ' || c == ',')
                    .any(|piece| piece.eq_ignore_ascii_case("Upgrade"));
                let mut request = browser_request();
                request.connection = Some(header);
                assert_eq!(is_not_socket_request(&request), !expected);
            }
        }
    }
}
