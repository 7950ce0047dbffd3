//! The client side of the SOCKS5 handshake: the frames it sends, the checks
//! on the proxy's answers, and the errors either can produce.
//!
//! The handshake is strictly sequential: method negotiation, then (only when
//! the proxy selected it) the username/password sub-negotiation, then the
//! CONNECT request and the proxy's reply. Each step here is a pure function
//! from the bytes read so far to the next frame to send or the failure to
//! report; the caller moves the bytes over the socket.

use vstd::prelude::*;

use crate::auth::Authentication;
use crate::target_addr::TargetAddr;

pub mod addr;
pub mod auth;

verus! {

/// Everything that can go wrong between building the first frame and
/// parsing the proxy's reply, each cause its own variant so callers can
/// discriminate protocol violations from connectivity failures.
#[derive(Clone, Copy, PartialEq, Eq, Structural, Debug)]
pub enum Socks5Error {
    /// A domain name longer than 255 bytes cannot be length-prefixed.
    DomainTooLong,
    /// The username must be 1 to 255 bytes.
    InvalidUsername,
    /// The password must be 1 to 255 bytes.
    InvalidPassword,
    /// A response carried a version byte other than the expected one.
    InvalidResponseVersion,
    /// The reserved byte of a reply was not zero.
    InvalidReservedByte,
    /// An address-type byte other than IPv4, domain or IPv6.
    UnsupportedAddressType,
    /// A domain name on the wire was not valid UTF-8.
    InvalidDomainEncoding,
    /// The proxy accepted none of the offered authentication methods.
    NoAcceptableAuthMethods,
    /// The proxy selected a method that was never offered.
    UnknownAuthMethod,
    /// The proxy rejected the supplied credentials.
    PasswordAuthFailed,
    /// Reply code 1: general SOCKS server failure.
    GeneralFailure,
    /// Reply code 2: connection not allowed by ruleset.
    ConnectionNotAllowed,
    /// Reply code 3: network unreachable.
    NetworkUnreachable,
    /// Reply code 4: host unreachable.
    HostUnreachable,
    /// Reply code 5: connection refused.
    ConnectionRefused,
    /// Reply code 6: TTL expired.
    TtlExpired,
    /// Reply code 7: command not supported.
    CommandNotSupported,
    /// Reply code 8: address type not supported.
    AddressTypeNotSupported,
    /// A reply code of 9 or above, which RFC 1928 leaves unassigned.
    UnknownReplyError,
    /// The buffer ends before the frame does; more bytes must be read.
    Incomplete,
}

/// The spec-level taxonomy of `Socks5Error`: configuration errors are caught
/// before any network activity, protocol errors are violations of the SOCKS5
/// exchange, connectivity errors are failures of the transport or failures
/// the proxy reported.
#[derive(Clone, Copy, PartialEq, Eq, Structural, Debug)]
pub enum ErrorClass {
    Configuration,
    Protocol,
    Connectivity,
}

impl Socks5Error {
    pub open spec fn spec_class(self) -> ErrorClass {
        match self {
            Socks5Error::DomainTooLong => ErrorClass::Configuration,
            Socks5Error::InvalidUsername => ErrorClass::Configuration,
            Socks5Error::InvalidPassword => ErrorClass::Configuration,
            Socks5Error::InvalidResponseVersion => ErrorClass::Protocol,
            Socks5Error::InvalidReservedByte => ErrorClass::Protocol,
            Socks5Error::UnsupportedAddressType => ErrorClass::Protocol,
            Socks5Error::InvalidDomainEncoding => ErrorClass::Protocol,
            Socks5Error::NoAcceptableAuthMethods => ErrorClass::Protocol,
            Socks5Error::UnknownAuthMethod => ErrorClass::Protocol,
            Socks5Error::PasswordAuthFailed => ErrorClass::Protocol,
            _ => ErrorClass::Connectivity,
        }
    }

    /// Which class of failure this is.
    pub fn class(&self) -> (r: ErrorClass)
        ensures
            r == self.spec_class(),
    {
        match self {
            Socks5Error::DomainTooLong => ErrorClass::Configuration,
            Socks5Error::InvalidUsername => ErrorClass::Configuration,
            Socks5Error::InvalidPassword => ErrorClass::Configuration,
            Socks5Error::InvalidResponseVersion => ErrorClass::Protocol,
            Socks5Error::InvalidReservedByte => ErrorClass::Protocol,
            Socks5Error::UnsupportedAddressType => ErrorClass::Protocol,
            Socks5Error::InvalidDomainEncoding => ErrorClass::Protocol,
            Socks5Error::NoAcceptableAuthMethods => ErrorClass::Protocol,
            Socks5Error::UnknownAuthMethod => ErrorClass::Protocol,
            Socks5Error::PasswordAuthFailed => ErrorClass::Protocol,
            _ => ErrorClass::Connectivity,
        }
    }
}

/// The method-negotiation request: version 5, the method count, then the
/// offered method identifiers. With credentials the password method is
/// offered first and no-auth is always offered as the fallback.
pub fn method_request(auth: &Authentication) -> (r: Vec<u8>)
    ensures
        auth@ is NoAuth ==> r@ == seq![5u8, 1u8, 0u8],
        auth@ is Password ==> r@ == seq![5u8, 2u8, 2u8, 0u8],
{
    let mut v: Vec<u8> = Vec::new();
    v.push(5);
    if auth.is_no_auth() {
        v.push(1);
        v.push(0);
        proof {
            assert(v@ =~= seq![5u8, 1u8, 0u8]);
        }
    } else {
        v.push(2);
        v.push(auth.id());
        v.push(0);
        proof {
            assert(v@ =~= seq![5u8, 2u8, 2u8, 0u8]);
        }
    }
    v
}

/// Checks the `[version, selected_method]` answer of method negotiation.
/// `Ok(true)` means the proxy selected the password method and the
/// sub-negotiation must run next; `Ok(false)` means no authentication.
pub fn check_method_response(auth: &Authentication, version: u8, method: u8) -> (r: Result<
    bool,
    Socks5Error,
>)
    ensures
        version != 5 ==> r == Err::<bool, _>(Socks5Error::InvalidResponseVersion),
        version == 5 && method == 0xff ==> r == Err::<bool, _>(
            Socks5Error::NoAcceptableAuthMethods,
        ),
        version == 5 && method != 0xff && method != auth@.spec_id() && method != 0 ==> r == Err::<
            bool,
            _,
        >(Socks5Error::UnknownAuthMethod),
        version == 5 && method != 0xff && (method == auth@.spec_id() || method == 0) ==> r == Ok::<
            _,
            Socks5Error,
        >(method == auth@.spec_id() && auth@ is Password),
{
    if version != 5 {
        return Err(Socks5Error::InvalidResponseVersion);
    }
    if method == 0xff {
        return Err(Socks5Error::NoAcceptableAuthMethods);
    }
    let id = auth.id();
    if method != id && method != 0 {
        return Err(Socks5Error::UnknownAuthMethod);
    }
    Ok(method == id && !auth.is_no_auth())
}

/// The CONNECT request naming the target: the frame `[5, 1, 0]` followed by
/// the target's ATYP-tagged encoding.
pub fn connect_request(target: &TargetAddr) -> (r: Result<Vec<u8>, Socks5Error>)
    ensures
        r matches Ok(v) ==> addr::spec_addr_encodable(target@) && v@ == seq![5u8, 1u8, 0u8]
            + addr::spec_addr_bytes(target@),
        r is Err <==> !addr::spec_addr_encodable(target@),
        r is Err ==> r == Err::<Vec<u8>, _>(Socks5Error::DomainTooLong),
{
    addr::write_addr(1, target)
}

} // verus!
