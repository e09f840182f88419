use oauth_loopback::{BindError, DeliveryReport, ServerConfig};

#[test]
fn failed_deliveries_are_recorded_and_the_rest_go_on() {
    let r = DeliveryReport::from_results(&vec![true, false, true, false]);
    assert_eq!(r.delivered, 2);
    assert_eq!(r.failed, vec![1, 3]);
    assert!(!r.complete());
    let r = DeliveryReport::from_results(&vec![]);
    assert_eq!(r.delivered, 0);
    assert!(r.complete());
}

#[test]
fn bind_errors_have_reasons() {
    assert_eq!(BindError::PortInUse.reason(), "port in use");
    assert_eq!(BindError::PermissionDenied.reason(), "permission denied");
    assert_eq!(BindError::Other.reason(), "other os error");
    assert_eq!(BindError::Other.user_message(), "could not start authentication listener");
}

#[test]
fn second_listener_on_the_same_port_fails() {
    let first = tiny_http::Server::http(String::from_utf8(ServerConfig::new(0, vec![]).bind_address()).unwrap())
        .expect("first listener");
    let port = first.server_addr().to_ip().expect("ip listener").port();
    let cfg = ServerConfig::new(port, vec![]);
    let second = tiny_http::Server::http(String::from_utf8(cfg.bind_address()).unwrap());
    assert!(second.is_err());
}

#[test]
fn disk_used_space_saturates() {
    assert_eq!(oauth_loopback::disk_used_space(100, 30), 70);
    assert_eq!(oauth_loopback::disk_used_space(100, 100), 0);
    assert_eq!(oauth_loopback::disk_used_space(10, 30), 0);
    assert_eq!(oauth_loopback::disk_used_space(u64::MAX, 0), u64::MAX);
}
