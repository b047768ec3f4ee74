use tlsproxy::addr::SocketAddress;
use tlsproxy::contexts::{ContextStore, TlsContext};
use tlsproxy::front::TlsFront;
use tlsproxy::server::{DefaultAnswers, ServerConfiguration};

fn front(app_id: &str, hostname: &str, path_begin: &str) -> TlsFront {
    TlsFront {
        app_id: app_id.to_owned(),
        hostname: hostname.to_owned(),
        path_begin: path_begin.to_owned(),
        port: 8080,
        cert_path: "".to_owned(),
        key_path: "".to_owned(),
    }
}

#[test]
fn frontend_from_request_test() {
    let app_id1 = "app_1".to_owned();
    let app_id2 = "app_2".to_owned();
    let app_id3 = "app_3".to_owned();
    let uri1 = "/".to_owned();
    let uri2 = "/yolo".to_owned();
    let uri3 = "/yolo/swag".to_owned();

    let fronts = vec![
        TlsFront {
            app_id: app_id1,
            hostname: "lolcatho.st".to_owned(),
            path_begin: uri1,
            port: 8080,
            key_path: "".to_owned(),
            cert_path: "".to_owned(),
        },
        TlsFront {
            app_id: app_id2,
            hostname: "lolcatho.st".to_owned(),
            path_begin: uri2,
            port: 8080,
            key_path: "".to_owned(),
            cert_path: "".to_owned(),
        },
        TlsFront {
            app_id: app_id3,
            hostname: "lolcatho.st".to_owned(),
            path_begin: uri3,
            port: 8080,
            key_path: "".to_owned(),
            cert_path: "".to_owned(),
        },
        TlsFront {
            app_id: "app_1".to_owned(),
            hostname: "other.domain".to_owned(),
            path_begin: "/test".to_owned(),
            port: 8080,
            key_path: "".to_owned(),
            cert_path: "".to_owned(),
        },
    ];

    let server_config = ServerConfiguration {
        address: SocketAddress::new(127, 0, 0, 1, 1030),
        instances: Vec::new(),
        fronts,
        default_cert: "".to_owned(),
        default_context: TlsContext { cert_pem: Vec::new(), key_pem: Vec::new() },
        contexts: ContextStore::new(),
        answers: DefaultAnswers {
            not_found: b"HTTP/1.1 404 Not Found\r\n\r\n".to_vec(),
            service_unavailable: b"HTTP/1.1 503 your application is in deployment\r\n\r\n"
                .to_vec(),
        },
    };

    let frontend1 = server_config.frontend_from_request("lolcatho.st", "/");
    let frontend2 = server_config.frontend_from_request("lolcatho.st", "/test");
    let frontend3 = server_config.frontend_from_request("lolcatho.st", "/yolo/test");
    let frontend4 = server_config.frontend_from_request("lolcatho.st", "/yolo/swag");
    let frontend5 = server_config.frontend_from_request("domain", "/");
    assert_eq!(frontend1.unwrap().app_id, "app_1");
    assert_eq!(frontend2.unwrap().app_id, "app_1");
    assert_eq!(frontend3.unwrap().app_id, "app_2");
    assert_eq!(frontend4.unwrap().app_id, "app_3");
    assert_eq!(frontend5, None);
}

fn empty_config() -> ServerConfiguration {
    ServerConfiguration::new(
        SocketAddress::new(127, 0, 0, 1, 8443),
        TlsContext { cert_pem: Vec::new(), key_pem: Vec::new() },
    )
}

#[test]
fn ties_go_to_the_last_added_front() {
    let mut cfg = empty_config();
    cfg.fronts.push(front("app_old", "h.test", "/api"));
    cfg.fronts.push(front("app_new", "h.test", "/api"));
    let f = cfg.frontend_from_request("h.test", "/api/v1").unwrap();
    assert_eq!(f.app_id, "app_new");
}

#[test]
fn unknown_host_matches_no_front() {
    let mut cfg = empty_config();
    cfg.fronts.push(front("app_1", "known.test", "/"));
    assert_eq!(cfg.frontend_from_request("unknown.example", "/"), None);
    assert_eq!(cfg.frontend_from_request("known.test", "/x").map(|f| f.app_id.as_str()), Some("app_1"));
}

#[test]
fn no_prefix_match_means_no_front() {
    let mut cfg = empty_config();
    cfg.fronts.push(front("app_1", "h.test", "/deep/path"));
    assert_eq!(cfg.frontend_from_request("h.test", "/other"), None);
    assert_eq!(cfg.frontend_from_request("h.test", "/deep"), None);
}

#[test]
fn remove_front_strips_exact_descriptor_only() {
    let mut cfg = empty_config();
    cfg.fronts.push(front("app_1", "h.test", "/"));
    cfg.fronts.push(front("app_2", "h.test", "/yolo"));
    cfg.remove_http_front(front("app_1", "h.test", "/"));
    assert_eq!(cfg.fronts.len(), 1);
    assert_eq!(cfg.fronts[0].app_id, "app_2");
    // removing a front that is no longer there changes nothing
    cfg.remove_http_front(front("app_1", "h.test", "/"));
    assert_eq!(cfg.fronts.len(), 1);
}

#[test]
fn add_then_remove_front_leaves_no_copy() {
    let mut cfg = empty_config();
    let f = front("app_1", "h.test", "/");
    cfg.fronts.push(f.clone());
    cfg.fronts.push(f.clone());
    cfg.remove_http_front(f.clone());
    assert!(cfg.fronts.iter().all(|g| *g != f));
    assert_eq!(cfg.fronts.len(), 0);
}

#[test]
fn instances_add_and_remove() {
    let mut cfg = empty_config();
    let a = SocketAddress::new(10, 0, 0, 1, 9000);
    let b = SocketAddress::new(10, 0, 0, 2, 9000);
    cfg.add_instance("app_1", &a);
    cfg.add_instance("app_1", &b);
    cfg.add_instance("app_2", &a);
    assert_eq!(cfg.addresses_of("app_1"), vec![a, b]);
    assert_eq!(cfg.addresses_of("app_2"), vec![a]);
    cfg.remove_instance("app_1", &a);
    assert_eq!(cfg.addresses_of("app_1"), vec![b]);
    assert_eq!(cfg.addresses_of("app_2"), vec![a]);
    // removal under an application that never existed is a no-op
    cfg.remove_instance("app_9", &a);
    assert_eq!(cfg.addresses_of("app_1"), vec![b]);
}

#[test]
fn add_then_remove_instance_restores_the_list() {
    let mut cfg = empty_config();
    let a = SocketAddress::new(192, 168, 0, 1, 80);
    let b = SocketAddress::new(192, 168, 0, 2, 80);
    cfg.add_instance("app_1", &b);
    cfg.add_instance("app_1", &a);
    cfg.remove_instance("app_1", &a);
    assert_eq!(cfg.addresses_of("app_1"), vec![b]);
}

#[test]
fn remove_instance_strips_every_copy() {
    let mut cfg = empty_config();
    let a = SocketAddress::new(10, 0, 0, 1, 9000);
    cfg.add_instance("app_1", &a);
    cfg.add_instance("app_1", &a);
    cfg.remove_instance("app_1", &a);
    assert_eq!(cfg.addresses_of("app_1"), Vec::new());
}
