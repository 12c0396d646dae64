use tlstap::addr::AddrPort;

fn s(v: Vec<u8>) -> String {
    String::from_utf8(v).unwrap()
}

#[test]
fn parse_host_and_port() {
    let ap = AddrPort::parse_host_port(b"example.com:443").unwrap();
    match &ap {
        AddrPort::Host { host, port } => {
            assert_eq!(host, b"example.com");
            assert_eq!(*port, 443);
        },
        _ => panic!("expected a host"),
    }
    assert_eq!(s(ap.render()), "example.com:443");
    assert_eq!(s(ap.host()), "example.com");
}

#[test]
fn parse_splits_on_last_colon() {
    let ap = AddrPort::parse_host_port(b"a:b:8080").unwrap();
    match &ap {
        AddrPort::Host { host, port } => {
            assert_eq!(host, b"a:b");
            assert_eq!(*port, 8080);
        },
        _ => panic!("expected a host"),
    }
}

#[test]
fn parse_empty_host_is_accepted() {
    let ap = AddrPort::parse_host_port(b":80").unwrap();
    match &ap {
        AddrPort::Host { host, port } => {
            assert_eq!(host, b"");
            assert_eq!(*port, 80);
        },
        _ => panic!("expected a host"),
    }
}

#[test]
fn parse_no_colon_is_invalid_address() {
    let err = AddrPort::parse_host_port(b"example").unwrap_err();
    assert_eq!(s(err), "Invalid address: example");
}

#[test]
fn parse_bad_port_is_invalid_port() {
    let err = AddrPort::parse_host_port(b"example.com:http").unwrap_err();
    assert_eq!(s(err), "Invalid port: http");
}

#[test]
fn parse_empty_port_is_invalid_port() {
    let err = AddrPort::parse_host_port(b"example.com:").unwrap_err();
    assert_eq!(s(err), "Invalid port: ");
}

#[test]
fn parse_port_overflow_is_invalid_port() {
    let err = AddrPort::parse_host_port(b"example.com:70000").unwrap_err();
    assert_eq!(s(err), "Invalid port: 70000");
    let err = AddrPort::parse_host_port(b"h:4294967297").unwrap_err();
    assert_eq!(s(err), "Invalid port: 4294967297");
}

#[test]
fn parse_port_reads_as_std_u16() {
    // leading '+' and leading zeros are accepted, as the standard u16 parse
    let ap = AddrPort::parse_host_port(b"h:+080").unwrap();
    match &ap {
        AddrPort::Host { port, .. } => assert_eq!(*port, 80),
        _ => panic!("expected a host"),
    }
    assert!(AddrPort::parse_host_port(b"h:+").is_err());
    assert!(AddrPort::parse_host_port(b"h:8 0").is_err());
}

#[test]
fn render_socket_v4() {
    let ap = AddrPort::Socket { ip: b"127.0.0.1".to_vec(), port: 8443 };
    assert_eq!(s(ap.render()), "127.0.0.1:8443");
    assert_eq!(s(ap.host()), "127.0.0.1");
}

#[test]
fn render_socket_v6_is_bracketed() {
    let ap = AddrPort::Socket { ip: b"::1".to_vec(), port: 443 };
    assert_eq!(s(ap.render()), "[::1]:443");
    assert_eq!(s(ap.host()), "::1");
}
