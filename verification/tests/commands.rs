use openssl::asn1::Asn1Time;
use openssl::bn::BigNum;
use openssl::hash::MessageDigest;
use openssl::pkey::PKey;
use openssl::rsa::Rsa;
use openssl::x509::X509;

use tlsproxy::addr::SocketAddress;
use tlsproxy::client::{Client, ConnectionError};
use tlsproxy::commands::{Command, Instance, ProxyOrder, ServerMessage};
use tlsproxy::contexts::TlsContext;
use tlsproxy::front::{HttpFront, TlsFront};
use tlsproxy::server::ServerConfiguration;

/// A fresh self-signed certificate and private key, produced by the same
/// OpenSSL the library calls, so the PEM bytes are valid wherever the
/// tests run.
fn generated_pems() -> (Vec<u8>, Vec<u8>) {
    let key = PKey::from_rsa(Rsa::generate(2048).unwrap()).unwrap();
    let mut builder = X509::builder().unwrap();
    let serial = BigNum::from_u32(1).unwrap().to_asn1_integer().unwrap();
    builder.set_serial_number(&serial).unwrap();
    builder.set_not_before(&Asn1Time::days_from_now(0).unwrap()).unwrap();
    builder.set_not_after(&Asn1Time::days_from_now(3650).unwrap()).unwrap();
    builder.set_pubkey(&key).unwrap();
    builder.sign(&key, MessageDigest::sha256()).unwrap();
    let cert = builder.build();
    (cert.to_pem().unwrap(), key.private_key_to_pem_pkcs8().unwrap())
}

fn front(app_id: &str, hostname: &str) -> TlsFront {
    TlsFront {
        app_id: app_id.to_owned(),
        hostname: hostname.to_owned(),
        path_begin: "/".to_owned(),
        port: 8443,
        cert_path: "assets/certificate.pem".to_owned(),
        key_path: "assets/key.pem".to_owned(),
    }
}

fn empty_config() -> ServerConfiguration {
    ServerConfiguration::new(
        SocketAddress::new(127, 0, 0, 1, 8443),
        TlsContext { cert_pem: Vec::new(), key_pem: Vec::new() },
    )
}

#[test]
fn add_front_installs_the_context_under_its_hostname() {
    let (cert_pem, key_pem) = generated_pems();
    let mut cfg = empty_config();
    assert!(cfg.contexts.lookup("a.test").is_none());
    let ok = cfg.add_http_front(front("app_1", "a.test"), &cert_pem, &key_pem);
    assert!(ok);
    let ctx = cfg.contexts.lookup("a.test").unwrap();
    assert_eq!(ctx.cert_pem, cert_pem);
    assert_eq!(ctx.key_pem, key_pem);
    assert!(cfg.contexts.lookup("b.test").is_none());
    assert_eq!(cfg.fronts.len(), 1);
}

#[test]
fn corrupt_certificate_rejects_the_front_without_partial_install() {
    let (cert_pem, key_pem) = generated_pems();
    let mut cfg = empty_config();
    let ok = cfg.add_http_front(front("app_1", "a.test"), b"not a pem", &key_pem);
    assert!(!ok);
    assert_eq!(cfg.fronts.len(), 0);
    assert!(cfg.contexts.lookup("a.test").is_none());
    let ok = cfg.add_http_front(front("app_1", "a.test"), &cert_pem, b"garbage");
    assert!(!ok);
    assert_eq!(cfg.fronts.len(), 0);
    assert!(cfg.contexts.lookup("a.test").is_none());
}

#[test]
fn encrypted_certificate_pem_is_rejected() {
    let (cert_pem, key_pem) = generated_pems();
    let mut encrypted = b"Proc-Type: 4,ENCRYPTED\r\n".to_vec();
    encrypted.extend_from_slice(&cert_pem);
    let mut cfg = empty_config();
    let ok = cfg.add_http_front(front("app_1", "a.test"), &encrypted, &key_pem);
    assert!(!ok);
    assert_eq!(cfg.fronts.len(), 0);
    assert!(cfg.contexts.lookup("a.test").is_none());
}

#[test]
fn removing_a_front_keeps_its_context_installed() {
    let (cert_pem, key_pem) = generated_pems();
    let mut cfg = empty_config();
    let f = front("app_1", "a.test");
    assert!(cfg.add_http_front(f.clone(), &cert_pem, &key_pem));
    cfg.remove_http_front(f);
    assert_eq!(cfg.fronts.len(), 0);
    assert!(cfg.contexts.lookup("a.test").is_some());
}

#[test]
fn live_reconfiguration_round_trip() {
    let (cert_pem, key_pem) = generated_pems();
    let mut cfg = empty_config();
    let f = front("app_1", "f.test");

    let r = cfg.notify(
        ProxyOrder::Command(Command::AddTlsFront(f.clone())),
        Some(TlsContext { cert_pem, key_pem }),
    );
    assert_eq!(r.ack, Some(ServerMessage::AddedFront));
    assert!(!r.stop);
    assert!(cfg.contexts.lookup("f.test").is_some());

    let instance = Instance {
        app_id: "app_1".to_owned(),
        ip_address: "127.0.0.1".to_owned(),
        port: 1026,
    };
    let r = cfg.notify(
        ProxyOrder::Command(Command::AddInstance(Instance {
            app_id: instance.app_id.clone(),
            ip_address: instance.ip_address.clone(),
            port: instance.port,
        })),
        None,
    );
    assert_eq!(r.ack, Some(ServerMessage::AddedInstance));

    let mut client = Client::new();
    client.http.request.host = Some("f.test".to_owned());
    client.http.request.request_line = Some(tlsproxy::client::RequestLine {
        method: "GET".to_owned(),
        uri: "/".to_owned(),
        version: "HTTP/1.1".to_owned(),
    });
    let expected = SocketAddress::new(127, 0, 0, 1, 1026);
    assert_eq!(cfg.connect_to_backend(&mut client), Ok(expected));

    let r = cfg.notify(ProxyOrder::Command(Command::RemoveInstance(instance)), None);
    assert_eq!(r.ack, Some(ServerMessage::RemovedInstance));
    let mut client2 = Client::new();
    client2.http.request.host = Some("f.test".to_owned());
    client2.http.request.request_line = Some(tlsproxy::client::RequestLine {
        method: "GET".to_owned(),
        uri: "/".to_owned(),
        version: "HTTP/1.1".to_owned(),
    });
    assert_eq!(
        cfg.connect_to_backend(&mut client2),
        Err(ConnectionError::NoBackendAvailable)
    );
}

#[test]
fn add_front_without_certificate_bytes_is_ignored() {
    let mut cfg = empty_config();
    let r = cfg.notify(ProxyOrder::Command(Command::AddTlsFront(front("app_1", "a.test"))), None);
    assert_eq!(r.ack, None);
    assert_eq!(cfg.fronts.len(), 0);
}

#[test]
fn add_front_with_corrupt_certificate_is_ignored() {
    let mut cfg = empty_config();
    let r = cfg.notify(
        ProxyOrder::Command(Command::AddTlsFront(front("app_1", "a.test"))),
        Some(TlsContext { cert_pem: b"junk".to_vec(), key_pem: b"junk".to_vec() }),
    );
    assert_eq!(r.ack, None);
    assert_eq!(cfg.fronts.len(), 0);
    assert!(cfg.contexts.lookup("a.test").is_none());
}

#[test]
fn remove_front_command_acks() {
    let (cert_pem, key_pem) = generated_pems();
    let mut cfg = empty_config();
    let f = front("app_1", "a.test");
    assert!(cfg.add_http_front(f.clone(), &cert_pem, &key_pem));
    let r = cfg.notify(ProxyOrder::Command(Command::RemoveTlsFront(f)), None);
    assert_eq!(r.ack, Some(ServerMessage::RemovedFront));
    assert_eq!(cfg.fronts.len(), 0);
}

#[test]
fn malformed_instance_address_is_ignored_without_ack() {
    let mut cfg = empty_config();
    let r = cfg.notify(
        ProxyOrder::Command(Command::AddInstance(Instance {
            app_id: "app_1".to_owned(),
            ip_address: "not-an-ip".to_owned(),
            port: 80,
        })),
        None,
    );
    assert_eq!(r.ack, None);
    assert_eq!(cfg.instances.len(), 0);
}

#[test]
fn plaintext_proxy_commands_are_ignored() {
    let mut cfg = empty_config();
    let hf = HttpFront {
        app_id: "app_1".to_owned(),
        hostname: "h.test".to_owned(),
        path_begin: "/".to_owned(),
        port: 80,
    };
    let r = cfg.notify(ProxyOrder::Command(Command::AddHttpFront(hf)), None);
    assert_eq!(r.ack, None);
    assert!(!r.stop);
    assert_eq!(cfg.fronts.len(), 0);
}

#[test]
fn stop_asks_the_loop_to_shut_down() {
    let mut cfg = empty_config();
    let r = cfg.notify(ProxyOrder::Stop, None);
    assert_eq!(r.ack, None);
    assert!(r.stop);
}
