use tlsproxy::addr::parse_ipv4;
use tlsproxy::client::{Client, ClientEvent, ClientStatus};
use tlsproxy::contexts::{ContextStore, TlsContext};
use tlsproxy::strutil::{str_eq, str_is_prefix, strip_port};

#[test]
fn dotted_quads_parse() {
    assert_eq!(parse_ipv4("127.0.0.1"), Some((127, 0, 0, 1)));
    assert_eq!(parse_ipv4("0.0.0.0"), Some((0, 0, 0, 0)));
    assert_eq!(parse_ipv4("255.255.255.255"), Some((255, 255, 255, 255)));
    assert_eq!(parse_ipv4("192.168.42.7"), Some((192, 168, 42, 7)));
}

#[test]
fn malformed_addresses_are_rejected() {
    assert_eq!(parse_ipv4(""), None);
    assert_eq!(parse_ipv4("1.2.3"), None);
    assert_eq!(parse_ipv4("1.2.3.4.5"), None);
    assert_eq!(parse_ipv4("256.0.0.1"), None);
    assert_eq!(parse_ipv4("01.2.3.4"), None);
    assert_eq!(parse_ipv4("1..2.3"), None);
    assert_eq!(parse_ipv4("a.b.c.d"), None);
    assert_eq!(parse_ipv4("1.2.3.4 "), None);
    assert_eq!(parse_ipv4("1234.5.6.7"), None);
    assert_eq!(parse_ipv4("1.2.3."), None);
    assert_eq!(parse_ipv4(".1.2.3"), None);
}

#[test]
fn host_port_suffix_is_stripped() {
    assert_eq!(strip_port("lolcatho.st:8443"), "lolcatho.st");
    assert_eq!(strip_port("lolcatho.st"), "lolcatho.st");
    assert_eq!(strip_port(":8443"), "");
    assert_eq!(strip_port("h:1:2"), "h");
    assert_eq!(strip_port(""), "");
}

#[test]
fn string_comparisons() {
    assert!(str_eq("abc", "abc"));
    assert!(!str_eq("abc", "abd"));
    assert!(!str_eq("abc", "ab"));
    assert!(str_is_prefix("/yolo", "/yolo/swag"));
    assert!(str_is_prefix("", "/"));
    assert!(!str_is_prefix("/yolo/swag", "/yolo"));
    assert!(!str_is_prefix("/a", "/b"));
}

#[test]
fn client_state_machine_follows_the_diagram() {
    assert_eq!(
        ClientStatus::Handshaking.next(ClientEvent::HandshakeCompleted),
        ClientStatus::ReadingRequest
    );
    assert_eq!(
        ClientStatus::ReadingRequest.next(ClientEvent::RequestParsed),
        ClientStatus::ConnectingBackend
    );
    assert_eq!(
        ClientStatus::ConnectingBackend.next(ClientEvent::BackendConnected),
        ClientStatus::Streaming
    );
    assert_eq!(
        ClientStatus::ReadingRequest.next(ClientEvent::AnswerStaged),
        ClientStatus::WritingCannedAnswer
    );
    assert_eq!(
        ClientStatus::WritingCannedAnswer.next(ClientEvent::AnswerDrained),
        ClientStatus::Closed
    );
    assert_eq!(ClientStatus::Streaming.next(ClientEvent::PeerClosed), ClientStatus::Closed);
    assert_eq!(ClientStatus::Handshaking.next(ClientEvent::IoError), ClientStatus::Closed);
    // events that do not apply leave the state unchanged
    assert_eq!(
        ClientStatus::Streaming.next(ClientEvent::HandshakeCompleted),
        ClientStatus::Streaming
    );
    assert_eq!(
        ClientStatus::Handshaking.next(ClientEvent::RequestParsed),
        ClientStatus::Handshaking
    );
    assert_eq!(
        ClientStatus::Handshaking.next(ClientEvent::AnswerDrained),
        ClientStatus::Handshaking
    );
}

#[test]
fn fresh_client_is_handshaking_with_empty_state() {
    let c = Client::new();
    assert_eq!(c.status, ClientStatus::Handshaking);
    assert!(c.answer.is_none());
    assert_eq!(c.http.req_position, 0);
    assert!(c.http.request.host.is_none());
}

#[test]
fn staging_an_answer_diverts_the_connection() {
    let mut c = Client::new();
    c.set_answer(b"HTTP/1.1 404 Not Found\r\n\r\n");
    assert_eq!(c.answer, Some(b"HTTP/1.1 404 Not Found\r\n\r\n".to_vec()));
    assert_eq!(c.status, ClientStatus::WritingCannedAnswer);
}

#[test]
fn context_store_lookup_finds_the_latest_install() {
    let mut store = ContextStore::new();
    assert!(store.lookup("a.test").is_none());
    store.install(
        "a.test".to_owned(),
        TlsContext { cert_pem: b"one".to_vec(), key_pem: b"k1".to_vec() },
    );
    store.install(
        "b.test".to_owned(),
        TlsContext { cert_pem: b"two".to_vec(), key_pem: b"k2".to_vec() },
    );
    assert_eq!(store.lookup("a.test").unwrap().cert_pem, b"one".to_vec());
    assert_eq!(store.lookup("b.test").unwrap().cert_pem, b"two".to_vec());
    // reinstalling a hostname shadows the earlier context
    store.install(
        "a.test".to_owned(),
        TlsContext { cert_pem: b"three".to_vec(), key_pem: b"k3".to_vec() },
    );
    assert_eq!(store.lookup("a.test").unwrap().cert_pem, b"three".to_vec());
    assert!(store.lookup("c.test").is_none());
}
