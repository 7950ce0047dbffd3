use forward::socks5::addr::{read_addr, read_response, write_addr};
use forward::socks5::Socks5Error;
use forward::target_addr::{SocketAddress, TargetAddr};

#[test]
fn round_trip_v4() {
    let t = TargetAddr::Ip(SocketAddress::V4 {
        ip: 0x7f000001,
        port: 8080,
    });
    let v = write_addr(1, &t).unwrap();
    assert_eq!(v, vec![5, 1, 0, 1, 127, 0, 0, 1, 0x1f, 0x90]);
    let (t2, n) = read_addr(&v[3..]).unwrap();
    assert_eq!(n, v.len() - 3);
    assert_eq!(t2, t);
}

#[test]
fn round_trip_v6() {
    let t = TargetAddr::Ip(SocketAddress::V6 {
        ip: 0x20010db8000000000000000000000001,
        port: 443,
    });
    let v = write_addr(1, &t).unwrap();
    assert_eq!(v[3], 4);
    assert_eq!(v.len(), 3 + 19);
    let (t2, n) = read_addr(&v[3..]).unwrap();
    assert_eq!(n, 19);
    assert_eq!(t2, t);
}

#[test]
fn round_trip_domain() {
    let t = TargetAddr::Domain("example.com".to_string(), 80);
    let v = write_addr(1, &t).unwrap();
    assert_eq!(&v[..5], &[5, 1, 0, 3, 11]);
    assert_eq!(&v[5..16], b"example.com");
    assert_eq!(&v[16..], &[0, 80]);
    let (t2, n) = read_addr(&v[3..]).unwrap();
    assert_eq!(n, v.len() - 3);
    assert_eq!(t2, t);
}

#[test]
fn long_domain_rejected() {
    let long = TargetAddr::Domain("d".repeat(256), 80);
    assert_eq!(write_addr(1, &long), Err(Socks5Error::DomainTooLong));

    let edge = TargetAddr::Domain("d".repeat(255), 80);
    let v = write_addr(1, &edge).unwrap();
    assert_eq!(v[4], 255);
}

#[test]
fn reply_success_parses_bound_address() {
    let frame = [5u8, 0, 0, 1, 1, 2, 3, 4, 0, 80];
    let (t, n) = read_response(&frame).unwrap();
    assert_eq!(n, 10);
    assert_eq!(
        t,
        TargetAddr::Ip(SocketAddress::V4 {
            ip: 0x01020304,
            port: 80,
        }),
    );
}

#[test]
fn reply_codes_map_to_distinct_errors() {
    let expected = [
        Socks5Error::GeneralFailure,
        Socks5Error::ConnectionNotAllowed,
        Socks5Error::NetworkUnreachable,
        Socks5Error::HostUnreachable,
        Socks5Error::ConnectionRefused,
        Socks5Error::TtlExpired,
        Socks5Error::CommandNotSupported,
        Socks5Error::AddressTypeNotSupported,
    ];
    for code in 1u8..=8 {
        let frame = [5u8, code];
        assert_eq!(read_response(&frame), Err(expected[(code - 1) as usize]));
    }
    assert_eq!(read_response(&[5u8, 9]), Err(Socks5Error::UnknownReplyError));
    assert_eq!(
        read_response(&[5u8, 200]),
        Err(Socks5Error::UnknownReplyError),
    );
}

#[test]
fn reply_bad_version_and_reserved() {
    assert_eq!(
        read_response(&[6u8, 0, 0]),
        Err(Socks5Error::InvalidResponseVersion),
    );
    assert_eq!(
        read_response(&[5u8, 0, 7]),
        Err(Socks5Error::InvalidReservedByte),
    );
}

#[test]
fn unknown_address_type() {
    assert_eq!(
        read_addr(&[9u8, 0, 0, 0]),
        Err(Socks5Error::UnsupportedAddressType),
    );
}

#[test]
fn domain_must_be_utf8() {
    let frame = [3u8, 2, 0xff, 0xfe, 0, 80];
    assert_eq!(read_addr(&frame), Err(Socks5Error::InvalidDomainEncoding));

    let frame = [3u8, 2, b'a', b'b', 0, 80];
    let (t, n) = read_addr(&frame).unwrap();
    assert_eq!(n, 6);
    assert_eq!(t, TargetAddr::Domain("ab".to_string(), 80));
}

#[test]
fn short_frames_are_incomplete() {
    assert_eq!(read_addr(&[]), Err(Socks5Error::Incomplete));
    assert_eq!(read_addr(&[1u8, 0, 0]), Err(Socks5Error::Incomplete));
    assert_eq!(read_addr(&[3u8, 5, b'a']), Err(Socks5Error::Incomplete));
    assert_eq!(read_response(&[]), Err(Socks5Error::Incomplete));
    assert_eq!(read_response(&[5u8]), Err(Socks5Error::Incomplete));
    assert_eq!(read_response(&[5u8, 0]), Err(Socks5Error::Incomplete));
}

#[test]
fn empty_domain_round_trips() {
    let t = TargetAddr::Domain(String::new(), 80);
    let v = write_addr(1, &t).unwrap();
    assert_eq!(v, vec![5, 1, 0, 3, 0, 0, 80]);
    let (t2, n) = read_addr(&v[3..]).unwrap();
    assert_eq!(n, 4);
    assert_eq!(t2, t);
}
