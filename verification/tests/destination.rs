use clusterit::destination::ConnectionError;
use clusterit::destination::{connect_target, Destination};

#[test]
pub fn destination_from_str() {
    let d = Destination::from_str("ssh://test@ahostname:48").unwrap();
    assert_eq!(d.username, "test");
    assert_eq!(d.hostname, "ahostname");
    assert_eq!(d.port, 48);

    let d = Destination::from_str("test@ahostname:48").unwrap();
    assert_eq!(d.username, "test");
    assert_eq!(d.hostname, "ahostname");
    assert_eq!(d.port, 48);

    let d = Destination::from_str("192.168.1.1").unwrap();
    assert_eq!(d.username, "root");
    assert_eq!(d.hostname, "192.168.1.1");
    assert_eq!(d.port, 22);
}

#[test]
fn destination_display_and_back() {
    let d = Destination::from_str("ssh://admin@box:2222").unwrap();
    assert_eq!(d.to_string(), "admin@box:2222");
    let again = Destination::from_str(&d.to_string()).unwrap();
    assert_eq!(again.username, "admin");
    assert_eq!(again.hostname, "box");
    assert_eq!(again.port, 2222);
}

#[test]
fn destination_invalid_port_is_refused() {
    assert!(Destination::try_parse("host:99999").is_none());
    assert!(Destination::try_parse("host:").is_none());
    assert!(Destination::try_parse("host:-1").is_none());
    assert_eq!(Destination::try_parse("host:+80").unwrap().port, 80);
    let d = Destination::try_parse("a@b@c:1:2").unwrap();
    assert_eq!(d.username, "a");
    assert_eq!(d.hostname, "b");
    assert_eq!(d.port, 22);
}

#[test]
fn connection_error_messages() {
    assert_eq!(ConnectionError::ParseError("x").message(), "Connection Parsing Error: x");
    assert_eq!(ConnectionError::Other("y").message(), "Something went wrong: y");
}

#[test]
fn ssh_errors_become_connection_errors() {
    let e = ConnectionError::from(ssh2::Error::new(ssh2::ErrorCode::Session(-34), "bad request"));
    assert!(matches!(e, ConnectionError::Ssh(_)));
    assert!(e.message().contains("bad request"));
}

#[test]
fn connect_target_splits_user_address_and_host() {
    let t = connect_target("ssh://bob@host:2222");
    assert_eq!(t.user, "bob");
    assert_eq!(t.address, "host:2222");
    assert_eq!(t.hostname, "host");

    let t = connect_target("10.0.0.1:22");
    assert_eq!(t.user, "root");
    assert_eq!(t.address, "10.0.0.1:22");
    assert_eq!(t.hostname, "10.0.0.1");

    let t = connect_target("a@b@c");
    assert_eq!(t.user, "a");
    assert_eq!(t.address, "b:22");
    assert_eq!(t.hostname, "b");

    let t = connect_target("ssh://pi@host");
    assert_eq!(t.user, "pi");
    assert_eq!(t.address, "host:22");
    assert_eq!(t.hostname, "host");
}
