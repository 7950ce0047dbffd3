use forward::target_addr::str_to::{AddrParseError, ToTargetAddr};
use forward::target_addr::{SocketAddress, TargetAddr};

#[test]
fn str_to_target_addr() {
    assert_eq!(
        "127.0.0.1:8080".to_target_addr().unwrap(),
        ("127.0.0.1", 8080).to_target_addr().unwrap()
    )
}

#[test]
fn v4_socket_literal() {
    assert_eq!(
        "127.0.0.1:8080".to_target_addr().unwrap(),
        TargetAddr::Ip(SocketAddress::V4 {
            ip: 0x7f000001,
            port: 8080,
        }),
    );
    assert_eq!(
        "0.0.0.0:0".to_target_addr().unwrap(),
        TargetAddr::Ip(SocketAddress::V4 { ip: 0, port: 0 }),
    );
}

#[test]
fn v6_socket_literal() {
    assert_eq!(
        "[2001:db8::1]:443".to_target_addr().unwrap(),
        TargetAddr::Ip(SocketAddress::V6 {
            ip: 0x20010db8000000000000000000000001,
            port: 443,
        }),
    );
    assert_eq!(
        "[::]:53".to_target_addr().unwrap(),
        TargetAddr::Ip(SocketAddress::V6 { ip: 0, port: 53 }),
    );
    assert_eq!(
        "[1:2:3:4:5:6:7:8]:1".to_target_addr().unwrap(),
        TargetAddr::Ip(SocketAddress::V6 {
            ip: 0x00010002000300040005000600070008,
            port: 1,
        }),
    );
}

#[test]
fn bare_v6_host_through_generic_split() {
    assert_eq!(
        "::1:80".to_target_addr().unwrap(),
        TargetAddr::Ip(SocketAddress::V6 { ip: 1, port: 80 }),
    );
}

#[test]
fn embedded_dotted_quad() {
    assert_eq!(
        "::ffff:192.168.0.1:80".to_target_addr().unwrap(),
        TargetAddr::Ip(SocketAddress::V6 {
            ip: 0xffffc0a80001,
            port: 80,
        }),
    );
}

#[test]
fn domain_host() {
    assert_eq!(
        "mc.example.net:25565".to_target_addr().unwrap(),
        TargetAddr::Domain("mc.example.net".to_string(), 25565),
    );
}

#[test]
fn leading_zero_octet_is_a_domain() {
    assert_eq!(
        "127.00.0.1:80".to_target_addr().unwrap(),
        TargetAddr::Domain("127.00.0.1".to_string(), 80),
    );
}

#[test]
fn too_many_groups_is_a_domain() {
    assert_eq!(
        "[1:2:3:4:5:6:7::8]:1".to_target_addr().unwrap(),
        TargetAddr::Domain("[1:2:3:4:5:6:7::8]".to_string(), 1),
    );
}

#[test]
fn missing_colon_is_rejected() {
    assert_eq!(
        "example".to_target_addr(),
        Err(AddrParseError::InvalidSocketAddress),
    );
}

#[test]
fn bad_ports_are_rejected() {
    assert_eq!(
        "example.com:port".to_target_addr(),
        Err(AddrParseError::InvalidPortValue),
    );
    assert_eq!(
        "example.com:70000".to_target_addr(),
        Err(AddrParseError::InvalidPortValue),
    );
    assert_eq!(
        "example.com:".to_target_addr(),
        Err(AddrParseError::InvalidPortValue),
    );
}

#[test]
fn plus_prefixed_port_in_generic_split() {
    assert_eq!(
        "example.com:+80".to_target_addr().unwrap(),
        TargetAddr::Domain("example.com".to_string(), 80),
    );
}

#[test]
fn host_port_pairs() {
    assert_eq!(
        ("example.com", 80).to_target_addr().unwrap(),
        TargetAddr::Domain("example.com".to_string(), 80),
    );
    assert_eq!(
        ("::1", 80).to_target_addr().unwrap(),
        TargetAddr::Ip(SocketAddress::V6 { ip: 1, port: 80 }),
    );
    assert_eq!(
        ("10.0.0.9", 9).to_target_addr().unwrap(),
        TargetAddr::Ip(SocketAddress::V4 {
            ip: 0x0a000009,
            port: 9,
        }),
    );
}

#[test]
fn largest_port_parses() {
    assert_eq!(
        "example.com:65535".to_target_addr().unwrap(),
        TargetAddr::Domain("example.com".to_string(), 65535),
    );
    assert_eq!(
        "example.com:65536".to_target_addr(),
        Err(AddrParseError::InvalidPortValue),
    );
}
