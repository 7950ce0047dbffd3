//! The SOCKS5 address wire codec: the ATYP-tagged encoding of a target
//! address, its parser, and the parser of reply frames.

use vstd::prelude::*;
use vstd::arithmetic::power::pow;
use vstd::slice::{slice_index_get, slice_subrange, slice_to_vec};
use vstd::utf8::{
    decode_utf8, encode_utf8, encode_utf8_decode_utf8, encode_utf8_valid_utf8, valid_utf8,
};

use crate::socks5::Socks5Error;
use crate::target_addr::{string_from_utf8, SocketAddress, TargetAddr, TargetAddrView};
use crate::wire::{
    be_bytes, be_val, lemma_be_bytes_len, lemma_be_roundtrip, lemma_be_val_bound, push_be,
    read_be,
};

verus! {

proof fn lemma_pow256_vals()
    ensures
        pow(256, 2) == 0x10000,
        pow(256, 4) == 0x100000000,
        pow(256, 16) == 0x100000000000000000000000000000000,
{
    reveal_with_fuel(pow, 17);
}

/// The ATYP-tagged wire encoding of an address: `1` + 4 IP bytes + 2 port
/// bytes, `4` + 16 IP bytes + 2 port bytes, or `3` + a one-byte length + the
/// domain's UTF-8 bytes + 2 port bytes. All numbers are big-endian.
pub open spec fn spec_addr_bytes(t: TargetAddrView) -> Seq<u8> {
    match t {
        TargetAddrView::Ip(SocketAddress::V4 { ip, port }) => seq![1u8] + be_bytes(ip as nat, 4)
            + be_bytes(port as nat, 2),
        TargetAddrView::Ip(SocketAddress::V6 { ip, port }) => seq![4u8] + be_bytes(ip as nat, 16)
            + be_bytes(port as nat, 2),
        TargetAddrView::Domain { name, port } => seq![3u8, encode_utf8(name).len() as u8]
            + encode_utf8(name) + be_bytes(port as nat, 2),
    }
}

/// Whether the address can be put on the wire: a domain name must fit its
/// one-byte length prefix.
pub open spec fn spec_addr_encodable(t: TargetAddrView) -> bool {
    match t {
        TargetAddrView::Domain { name, .. } => encode_utf8(name).len() <= 255,
        _ => true,
    }
}

/// The outcome of parsing an address from the front of a byte sequence.
pub enum AddrParse {
    /// The sequence ends before the address does.
    Incomplete,
    /// An address-type byte other than 1, 3 or 4.
    BadType,
    /// The domain bytes are not valid UTF-8.
    BadDomain,
    /// The parsed address and the number of bytes it occupies.
    Done(TargetAddrView, int),
}

/// Parsing one ATYP-tagged address from the front of `s`.
pub open spec fn spec_parse_addr(s: Seq<u8>) -> AddrParse {
    if s.len() < 1 {
        AddrParse::Incomplete
    } else if s[0] == 1 {
        if s.len() < 7 {
            AddrParse::Incomplete
        } else {
            AddrParse::Done(
                TargetAddrView::Ip(
                    SocketAddress::V4 {
                        ip: be_val(s.subrange(1, 5)) as u32,
                        port: be_val(s.subrange(5, 7)) as u16,
                    },
                ),
                7,
            )
        }
    } else if s[0] == 4 {
        if s.len() < 19 {
            AddrParse::Incomplete
        } else {
            AddrParse::Done(
                TargetAddrView::Ip(
                    SocketAddress::V6 {
                        ip: be_val(s.subrange(1, 17)) as u128,
                        port: be_val(s.subrange(17, 19)) as u16,
                    },
                ),
                19,
            )
        }
    } else if s[0] == 3 {
        if s.len() < 2 {
            AddrParse::Incomplete
        } else {
            let n = s[1] as int;
            if s.len() < 4 + n {
                AddrParse::Incomplete
            } else if !valid_utf8(s.subrange(2, 2 + n)) {
                AddrParse::BadDomain
            } else {
                AddrParse::Done(
                    TargetAddrView::Domain {
                        name: decode_utf8(s.subrange(2, 2 + n)),
                        port: be_val(s.subrange(2 + n, 4 + n)) as u16,
                    },
                    4 + n,
                )
            }
        }
    } else {
        AddrParse::BadType
    }
}

/// Parses one address from the front of `buf`: the address and how many
/// bytes of `buf` it occupied. Too short a buffer, an unknown address type
/// and a domain that is not UTF-8 are told apart.
pub fn read_addr(buf: &[u8]) -> (r: Result<(TargetAddr, usize), Socks5Error>)
    ensures
        spec_parse_addr(buf@) is Incomplete <==> r == Err::<(TargetAddr, usize), _>(
            Socks5Error::Incomplete,
        ),
        spec_parse_addr(buf@) is BadType <==> r == Err::<(TargetAddr, usize), _>(
            Socks5Error::UnsupportedAddressType,
        ),
        spec_parse_addr(buf@) is BadDomain <==> r == Err::<(TargetAddr, usize), _>(
            Socks5Error::InvalidDomainEncoding,
        ),
        spec_parse_addr(buf@) is Done <==> r is Ok,
        r matches Ok(p) ==> spec_parse_addr(buf@) == AddrParse::Done(p.0@, p.1 as int),
{
    let len = buf.len();
    if len < 1 {
        return Err(Socks5Error::Incomplete);
    }
    let atyp = *slice_index_get(buf, 0);
    if atyp == 1 {
        if len < 7 {
            return Err(Socks5Error::Incomplete);
        }
        let ip128 = read_be(buf, 1, 4);
        let port128 = read_be(buf, 5, 2);
        proof {
            lemma_pow256_vals();
            lemma_be_val_bound(buf@.subrange(1, 5));
            lemma_be_val_bound(buf@.subrange(5, 7));
        }
        let ip = ip128 as u32;
        let port = port128 as u16;
        Ok((TargetAddr::Ip(SocketAddress::V4 { ip, port }), 7))
    } else if atyp == 4 {
        if len < 19 {
            return Err(Socks5Error::Incomplete);
        }
        let ip128 = read_be(buf, 1, 16);
        let port128 = read_be(buf, 17, 2);
        proof {
            lemma_pow256_vals();
            lemma_be_val_bound(buf@.subrange(1, 17));
            lemma_be_val_bound(buf@.subrange(17, 19));
        }
        let port = port128 as u16;
        Ok((TargetAddr::Ip(SocketAddress::V6 { ip: ip128, port }), 19))
    } else if atyp == 3 {
        if len < 2 {
            return Err(Socks5Error::Incomplete);
        }
        let n = *slice_index_get(buf, 1) as usize;
        if len < 4 + n {
            return Err(Socks5Error::Incomplete);
        }
        let dom = slice_to_vec(slice_subrange(buf, 2, 2 + n));
        match string_from_utf8(dom) {
            Option::None => Err(Socks5Error::InvalidDomainEncoding),
            Option::Some(name) => {
                let port128 = read_be(buf, 2 + n, 2);
                proof {
                    lemma_pow256_vals();
                    lemma_be_val_bound(buf@.subrange(2 + n as int, 4 + n as int));
                }
                let port = port128 as u16;
                Ok((TargetAddr::Domain(name, port), 4 + n))
            },
        }
    } else {
        Err(Socks5Error::UnsupportedAddressType)
    }
}

/// Builds the frame `[5, command, 0]` followed by the encoded address. A
/// domain name longer than 255 bytes is rejected before any byte is
/// produced.
pub fn write_addr(command: u8, target: &TargetAddr) -> (r: Result<Vec<u8>, Socks5Error>)
    ensures
        r matches Ok(v) ==> spec_addr_encodable(target@) && v@ == seq![5u8, command, 0u8]
            + spec_addr_bytes(target@),
        r is Err <==> !spec_addr_encodable(target@),
        r is Err ==> r == Err::<Vec<u8>, _>(Socks5Error::DomainTooLong),
{
    let mut v: Vec<u8> = Vec::new();
    v.push(5);
    v.push(command);
    v.push(0);
    match target {
        TargetAddr::Ip(SocketAddress::V4 { ip, port }) => {
            v.push(1);
            push_be(&mut v, *ip as u128, 4);
            push_be(&mut v, *port as u128, 2);
            proof {
                assert(v@ =~= seq![5u8, command, 0u8] + spec_addr_bytes(target@));
            }
            Ok(v)
        },
        TargetAddr::Ip(SocketAddress::V6 { ip, port }) => {
            v.push(4);
            push_be(&mut v, *ip, 16);
            push_be(&mut v, *port as u128, 2);
            proof {
                assert(v@ =~= seq![5u8, command, 0u8] + spec_addr_bytes(target@));
            }
            Ok(v)
        },
        TargetAddr::Domain(name, port) => {
            let bytes = name.as_str().as_bytes();
            if bytes.len() > 255 {
                return Err(Socks5Error::DomainTooLong);
            }
            v.push(3);
            v.push(bytes.len() as u8);
            v.extend_from_slice(bytes);
            push_be(&mut v, *port as u128, 2);
            proof {
                assert(v@ =~= seq![5u8, command, 0u8] + spec_addr_bytes(target@));
            }
            Ok(v)
        },
    }
}

/// The outcome of parsing a reply frame from the front of a byte sequence.
pub enum ReplyParse {
    /// The sequence ends before the frame does.
    Incomplete,
    /// The version byte is not 5.
    BadVersion,
    /// A non-zero reply code: the proxy refused the request.
    Refused(u8),
    /// The reserved byte is not zero.
    BadReserved,
    /// The bound address has an unknown address type.
    BadAddrType,
    /// The bound address's domain bytes are not valid UTF-8.
    BadDomain,
    /// The proxy-side bound address and the frame's length in bytes.
    Done(TargetAddrView, int),
}

/// Parsing a reply frame `[5, code, 0, address]` from the front of `s`.
pub open spec fn spec_parse_reply(s: Seq<u8>) -> ReplyParse {
    if s.len() < 1 {
        ReplyParse::Incomplete
    } else if s[0] != 5 {
        ReplyParse::BadVersion
    } else if s.len() < 2 {
        ReplyParse::Incomplete
    } else if s[1] != 0 {
        ReplyParse::Refused(s[1])
    } else if s.len() < 3 {
        ReplyParse::Incomplete
    } else if s[2] != 0 {
        ReplyParse::BadReserved
    } else {
        match spec_parse_addr(s.skip(3)) {
            AddrParse::Incomplete => ReplyParse::Incomplete,
            AddrParse::BadType => ReplyParse::BadAddrType,
            AddrParse::BadDomain => ReplyParse::BadDomain,
            AddrParse::Done(t, n) => ReplyParse::Done(t, 3 + n),
        }
    }
}

/// The failure a non-zero reply code stands for: codes 1 through 8 each have
/// their documented meaning, anything above is unknown.
pub open spec fn spec_reply_error(code: u8) -> Socks5Error {
    if code == 1 {
        Socks5Error::GeneralFailure
    } else if code == 2 {
        Socks5Error::ConnectionNotAllowed
    } else if code == 3 {
        Socks5Error::NetworkUnreachable
    } else if code == 4 {
        Socks5Error::HostUnreachable
    } else if code == 5 {
        Socks5Error::ConnectionRefused
    } else if code == 6 {
        Socks5Error::TtlExpired
    } else if code == 7 {
        Socks5Error::CommandNotSupported
    } else if code == 8 {
        Socks5Error::AddressTypeNotSupported
    } else {
        Socks5Error::UnknownReplyError
    }
}

/// Maps a non-zero reply code to its failure.
pub fn reply_error(code: u8) -> (r: Socks5Error)
    requires
        code != 0,
    ensures
        r == spec_reply_error(code),
{
    if code == 1 {
        Socks5Error::GeneralFailure
    } else if code == 2 {
        Socks5Error::ConnectionNotAllowed
    } else if code == 3 {
        Socks5Error::NetworkUnreachable
    } else if code == 4 {
        Socks5Error::HostUnreachable
    } else if code == 5 {
        Socks5Error::ConnectionRefused
    } else if code == 6 {
        Socks5Error::TtlExpired
    } else if code == 7 {
        Socks5Error::CommandNotSupported
    } else if code == 8 {
        Socks5Error::AddressTypeNotSupported
    } else {
        Socks5Error::UnknownReplyError
    }
}

/// Whether an error is one a reply code stands for.
pub open spec fn is_reply_failure(e: Socks5Error) -> bool {
    e == Socks5Error::GeneralFailure || e == Socks5Error::ConnectionNotAllowed || e
        == Socks5Error::NetworkUnreachable || e == Socks5Error::HostUnreachable || e
        == Socks5Error::ConnectionRefused || e == Socks5Error::TtlExpired || e
        == Socks5Error::CommandNotSupported || e == Socks5Error::AddressTypeNotSupported || e
        == Socks5Error::UnknownReplyError
}

/// Parses a reply frame from the front of `buf`: on reply code 0 the
/// proxy-side bound address and the frame's length, otherwise the failure
/// the frame reports, each cause told apart.
pub fn read_response(buf: &[u8]) -> (r: Result<(TargetAddr, usize), Socks5Error>)
    ensures
        spec_parse_reply(buf@) is Incomplete <==> r == Err::<(TargetAddr, usize), _>(
            Socks5Error::Incomplete,
        ),
        spec_parse_reply(buf@) is BadVersion <==> r == Err::<(TargetAddr, usize), _>(
            Socks5Error::InvalidResponseVersion,
        ),
        spec_parse_reply(buf@) matches ReplyParse::Refused(c) ==> r == Err::<(TargetAddr, usize), _>(
            spec_reply_error(c),
        ),
        spec_parse_reply(buf@) is Refused <==> (r matches Err(e) && is_reply_failure(e)),
        spec_parse_reply(buf@) is BadReserved <==> r == Err::<(TargetAddr, usize), _>(
            Socks5Error::InvalidReservedByte,
        ),
        spec_parse_reply(buf@) is BadAddrType <==> r == Err::<(TargetAddr, usize), _>(
            Socks5Error::UnsupportedAddressType,
        ),
        spec_parse_reply(buf@) is BadDomain <==> r == Err::<(TargetAddr, usize), _>(
            Socks5Error::InvalidDomainEncoding,
        ),
        spec_parse_reply(buf@) is Done <==> r is Ok,
        r matches Ok(p) ==> spec_parse_reply(buf@) == ReplyParse::Done(p.0@, p.1 as int),
{
    let len = buf.len();
    if len < 1 {
        return Err(Socks5Error::Incomplete);
    }
    if *slice_index_get(buf, 0) != 5 {
        return Err(Socks5Error::InvalidResponseVersion);
    }
    if len < 2 {
        return Err(Socks5Error::Incomplete);
    }
    let code = *slice_index_get(buf, 1);
    if code != 0 {
        return Err(reply_error(code));
    }
    if len < 3 {
        return Err(Socks5Error::Incomplete);
    }
    if *slice_index_get(buf, 2) != 0 {
        return Err(Socks5Error::InvalidReservedByte);
    }
    let rest = slice_subrange(buf, 3, len);
    match read_addr(rest) {
        Err(e) => Err(e),
        Ok((t, n)) => Ok((t, 3 + n)),
    }
}

/// Law: any encodable address, serialized and parsed back, gives itself.
pub proof fn lemma_addr_round_trip(t: TargetAddrView)
    requires
        spec_addr_encodable(t),
    ensures
        spec_parse_addr(spec_addr_bytes(t)) == AddrParse::Done(
            t,
            spec_addr_bytes(t).len() as int,
        ),
{
    lemma_pow256_vals();
    match t {
        TargetAddrView::Ip(SocketAddress::V4 { ip, port }) => {
            let s = spec_addr_bytes(t);
            lemma_be_bytes_len(ip as nat, 4);
            lemma_be_bytes_len(port as nat, 2);
            assert(s.len() == 7);
            assert(s[0] == 1);
            assert(s.subrange(1, 5) =~= be_bytes(ip as nat, 4));
            assert(s.subrange(5, 7) =~= be_bytes(port as nat, 2));
            lemma_be_roundtrip(ip as nat, 4);
            lemma_be_roundtrip(port as nat, 2);
        },
        TargetAddrView::Ip(SocketAddress::V6 { ip, port }) => {
            let s = spec_addr_bytes(t);
            lemma_be_bytes_len(ip as nat, 16);
            lemma_be_bytes_len(port as nat, 2);
            assert(s.len() == 19);
            assert(s[0] == 4);
            assert(s.subrange(1, 17) =~= be_bytes(ip as nat, 16));
            assert(s.subrange(17, 19) =~= be_bytes(port as nat, 2));
            lemma_be_roundtrip(ip as nat, 16);
            lemma_be_roundtrip(port as nat, 2);
        },
        TargetAddrView::Domain { name, port } => {
            let s = spec_addr_bytes(t);
            let d = encode_utf8(name);
            let n = d.len() as int;
            lemma_be_bytes_len(port as nat, 2);
            assert(s.len() == 4 + n);
            assert(s[0] == 3);
            assert(s[1] == n as u8);
            assert(s.subrange(2, 2 + n) =~= d);
            assert(s.subrange(2 + n, 4 + n) =~= be_bytes(port as nat, 2));
            encode_utf8_valid_utf8(name);
            encode_utf8_decode_utf8(name);
            lemma_be_roundtrip(port as nat, 2);
        },
    }
}

} // verus!
