//! HTTP Basic authorization of the WebSocket upgrade.

use simple_tunnel::sockets::BasicAuthentication;
use simple_tunnel::websocket::{authorize, Authentication, ListenConnector, ClientConnector};

#[test]
fn authorization_header_is_basic_base64() {
    let auth = Authentication {
        username: String::from("hello"),
        password: String::from("world"),
    };
    // base64("hello:world") == "aGVsbG86d29ybGQ="
    assert_eq!(auth.autherization(), b"Basic aGVsbG86d29ybGQ=".to_vec());
}

#[test]
fn basic_authentication_builds_the_same_header() {
    let auth = BasicAuthentication {
        username: String::from("hello"),
        password: String::from("world"),
    };
    assert_eq!(auth.autherization(), b"Basic aGVsbG86d29ybGQ=".to_vec());
}

#[test]
fn empty_credentials_still_encode() {
    let auth = Authentication { username: String::new(), password: String::new() };
    // base64(":") == "Og=="
    assert_eq!(auth.autherization(), b"Basic Og==".to_vec());
}

#[test]
fn matching_credentials_pass() {
    let expected = b"Basic aGVsbG86d29ybGQ=".to_vec();
    let provided = expected.clone();
    assert!(authorize(Some(&provided), &expected).is_ok());
}

#[test]
fn wrong_password_gets_exactly_401() {
    let server = Authentication {
        username: String::from("hello"),
        password: String::from("world"),
    };
    let client = Authentication {
        username: String::from("hello"),
        password: String::from("wrong"),
    };
    let expected = server.autherization();
    let provided = client.autherization();
    let rejection = authorize(Some(&provided), &expected).unwrap_err();
    assert_eq!(rejection.status, 401);
    assert_eq!(rejection.www_authenticate, "Basic realm=\"access the service\"");
}

#[test]
fn missing_header_gets_exactly_401() {
    let server = Authentication {
        username: String::from("hello"),
        password: String::from("world"),
    };
    let expected = server.autherization();
    let rejection = authorize(None, &expected).unwrap_err();
    assert_eq!(rejection.status, 401);
    assert_eq!(rejection.www_authenticate, "Basic realm=\"access the service\"");
}

#[test]
fn connectors_carry_the_header_value() {
    let listener = ListenConnector::new(
        (),
        Authentication { username: String::from("hello"), password: String::from("world") },
    );
    assert_eq!(listener.autherization, b"Basic aGVsbG86d29ybGQ=".to_vec());

    let client = ClientConnector::new(
        (),
        String::from("wss://www.example.com/ws"),
        Authentication { username: String::from("hello"), password: String::from("world") },
    );
    assert_eq!(client.uri, "wss://www.example.com/ws");
    assert_eq!(client.autherizatoin, b"Basic aGVsbG86d29ybGQ=".to_vec());
}
