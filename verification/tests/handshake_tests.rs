use forward::auth::Authentication;
use forward::socks5::addr::read_response;
use forward::socks5::auth::{check_password_response, password_request};
use forward::socks5::{
    check_method_response, connect_request, method_request, ErrorClass, Socks5Error,
};
use forward::target_addr::{SocketAddress, TargetAddr};

fn password_auth() -> Authentication {
    Authentication::Password {
        username: "usr".to_string(),
        password: "pwd".to_string(),
    }
}

#[test]
fn method_request_frames() {
    assert_eq!(method_request(&Authentication::NoAuth), vec![5, 1, 0]);
    assert_eq!(method_request(&password_auth()), vec![5, 2, 2, 0]);
}

#[test]
fn method_response_checks() {
    assert_eq!(
        check_method_response(&Authentication::NoAuth, 5, 0),
        Ok(false),
    );
    assert_eq!(check_method_response(&password_auth(), 5, 2), Ok(true));
    assert_eq!(check_method_response(&password_auth(), 5, 0), Ok(false));
    assert_eq!(
        check_method_response(&password_auth(), 4, 2),
        Err(Socks5Error::InvalidResponseVersion),
    );
    assert_eq!(
        check_method_response(&password_auth(), 5, 0xff),
        Err(Socks5Error::NoAcceptableAuthMethods),
    );
    assert_eq!(
        check_method_response(&password_auth(), 5, 1),
        Err(Socks5Error::UnknownAuthMethod),
    );
}

#[test]
fn password_request_frame() {
    let v = password_request("usr", "pwd").unwrap();
    assert_eq!(v, vec![1, 3, b'u', b's', b'r', 3, b'p', b'w', b'd']);
}

#[test]
fn password_request_validates_lengths() {
    assert_eq!(password_request("", "pwd"), Err(Socks5Error::InvalidUsername));
    let long = "x".repeat(256);
    assert_eq!(
        password_request(&long, "pwd"),
        Err(Socks5Error::InvalidUsername),
    );
    assert_eq!(password_request("usr", ""), Err(Socks5Error::InvalidPassword));
    assert_eq!(
        password_request("usr", &long),
        Err(Socks5Error::InvalidPassword),
    );
}

#[test]
fn password_response_checks() {
    assert_eq!(check_password_response(1, 0), Ok(()));
    assert_eq!(
        check_password_response(0, 0),
        Err(Socks5Error::InvalidResponseVersion),
    );
    assert_eq!(
        check_password_response(1, 1),
        Err(Socks5Error::PasswordAuthFailed),
    );
}

#[test]
fn connect_request_frame() {
    let t = TargetAddr::Domain("example.com".to_string(), 25565);
    let v = connect_request(&t).unwrap();
    assert_eq!(&v[..5], &[5, 1, 0, 3, 11]);
}

#[test]
fn error_classes() {
    assert_eq!(Socks5Error::DomainTooLong.class(), ErrorClass::Configuration);
    assert_eq!(Socks5Error::InvalidUsername.class(), ErrorClass::Configuration);
    assert_eq!(Socks5Error::PasswordAuthFailed.class(), ErrorClass::Protocol);
    assert_eq!(Socks5Error::InvalidReservedByte.class(), ErrorClass::Protocol);
    assert_eq!(Socks5Error::GeneralFailure.class(), ErrorClass::Connectivity);
    assert_eq!(Socks5Error::Incomplete.class(), ErrorClass::Connectivity);
}

/// The whole exchange a no-auth CONNECT performs, at the byte level: the
/// frames the client sends and the checks on what a well-behaved proxy
/// answers.
#[test]
fn no_auth_connect_exchange() {
    let auth = Authentication::NoAuth;
    let target = TargetAddr::Ip(SocketAddress::V4 {
        ip: 0x7f000001,
        port: 7,
    });

    let hello = method_request(&auth);
    assert_eq!(hello, vec![5, 1, 0]);

    // the proxy selects no-auth
    let needs_password = check_method_response(&auth, 5, 0).unwrap();
    assert!(!needs_password);

    let request = connect_request(&target).unwrap();
    assert_eq!(request, vec![5, 1, 0, 1, 127, 0, 0, 1, 0, 7]);

    // the proxy reports success, bound at 10.0.0.9:4242
    let reply = [5u8, 0, 0, 1, 10, 0, 0, 9, 0x10, 0x92];
    let (bound, n) = read_response(&reply).unwrap();
    assert_eq!(n, reply.len());
    assert_eq!(
        bound,
        TargetAddr::Ip(SocketAddress::V4 {
            ip: 0x0a000009,
            port: 0x1092,
        }),
    );
}
