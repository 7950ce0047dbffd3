//! The username/password sub-negotiation (RFC 1929): the request frame and
//! the check of the proxy's answer.

use vstd::prelude::*;
use vstd::utf8::encode_utf8;

use crate::socks5::Socks5Error;

verus! {

/// Whether a credential fits the wire format: 1 to 255 bytes.
pub open spec fn spec_credential_ok(s: Seq<char>) -> bool {
    1 <= encode_utf8(s).len() <= 255
}

/// The sub-negotiation request frame `[1, ulen, user.., plen, pass..]`.
pub open spec fn spec_password_request(username: Seq<char>, password: Seq<char>) -> Seq<u8> {
    let u = encode_utf8(username);
    let p = encode_utf8(password);
    seq![1u8, u.len() as u8] + u + seq![p.len() as u8] + p
}

/// Builds the sub-negotiation request for the given credentials. Each
/// credential must be 1 to 255 bytes; the username is checked first.
pub fn password_request(username: &str, password: &str) -> (r: Result<Vec<u8>, Socks5Error>)
    ensures
        !spec_credential_ok(username@) <==> r == Err::<Vec<u8>, _>(Socks5Error::InvalidUsername),
        spec_credential_ok(username@) && !spec_credential_ok(password@) <==> r == Err::<
            Vec<u8>,
            _,
        >(Socks5Error::InvalidPassword),
        r matches Ok(v) ==> spec_credential_ok(username@) && spec_credential_ok(password@) && v@
            == spec_password_request(username@, password@),
        spec_credential_ok(username@) && spec_credential_ok(password@) <==> r is Ok,
{
    let ub = username.as_bytes();
    let pb = password.as_bytes();
    if ub.len() < 1 || ub.len() > 255 {
        return Err(Socks5Error::InvalidUsername);
    }
    if pb.len() < 1 || pb.len() > 255 {
        return Err(Socks5Error::InvalidPassword);
    }
    let mut v: Vec<u8> = Vec::new();
    v.push(1);
    v.push(ub.len() as u8);
    v.extend_from_slice(ub);
    v.push(pb.len() as u8);
    v.extend_from_slice(pb);
    proof {
        assert(v@ =~= spec_password_request(username@, password@));
    }
    Ok(v)
}

/// Checks the sub-negotiation answer `[version, status]`: the version must
/// be 1 and any non-zero status means the proxy rejected the credentials.
pub fn check_password_response(version: u8, status: u8) -> (r: Result<(), Socks5Error>)
    ensures
        version != 1 ==> r == Err::<(), _>(Socks5Error::InvalidResponseVersion),
        version == 1 && status != 0 ==> r == Err::<(), _>(Socks5Error::PasswordAuthFailed),
        version == 1 && status == 0 ==> r is Ok,
{
    if version != 1 {
        return Err(Socks5Error::InvalidResponseVersion);
    }
    if status != 0 {
        return Err(Socks5Error::PasswordAuthFailed);
    }
    Ok(())
}

} // verus!
