//! The library's address model: a resolved socket address (IPv4 or IPv6 held
//! as plain integers) or a domain name with a port, left for the proxy to
//! resolve.

use vstd::prelude::*;

pub mod str_to;
use vstd::utf8::{decode_utf8, valid_utf8};

verus! {

/// A resolved socket address: the IP as one unsigned number whose big-endian
/// bytes are the wire octets, and the port. An IPv6 address carries zero
/// flow-info and scope-id, which this model leaves out.
#[derive(Clone, Copy, PartialEq, Eq, Structural, Debug)]
pub enum SocketAddress {
    V4 { ip: u32, port: u16 },
    V6 { ip: u128, port: u16 },
}

impl SocketAddress {
    /// The port half of the address.
    pub open spec fn spec_port(self) -> u16 {
        match self {
            SocketAddress::V4 { port, .. } => port,
            SocketAddress::V6 { port, .. } => port,
        }
    }

    pub fn port(&self) -> (r: u16)
        ensures
            r == self.spec_port(),
    {
        match self {
            SocketAddress::V4 { port, .. } => *port,
            SocketAddress::V6 { port, .. } => *port,
        }
    }
}

/// Where the proxy is asked to connect: an already-resolved socket address,
/// or a domain name (at most 255 bytes once encoded) with a port.
#[derive(Debug)]
pub enum TargetAddr {
    Ip(SocketAddress),
    Domain(String, u16),
}

/// Ghost model of a `TargetAddr`: the domain name is viewed as its
/// character sequence.
pub enum TargetAddrView {
    Ip(SocketAddress),
    Domain { name: Seq<char>, port: u16 },
}

impl View for TargetAddr {
    type V = TargetAddrView;

    open spec fn view(&self) -> TargetAddrView {
        match self {
            TargetAddr::Ip(sa) => TargetAddrView::Ip(*sa),
            TargetAddr::Domain(name, port) => TargetAddrView::Domain {
                name: name@,
                port: *port,
            },
        }
    }
}

impl Clone for TargetAddr {
    fn clone(&self) -> (r: Self)
        ensures
            r@ == self@,
    {
        match self {
            TargetAddr::Ip(sa) => TargetAddr::Ip(*sa),
            TargetAddr::Domain(name, port) => TargetAddr::Domain(name.clone(), *port),
        }
    }
}

impl PartialEq for TargetAddr {
    fn eq(&self, other: &Self) -> (r: bool) {
        match (self, other) {
            (TargetAddr::Ip(a), TargetAddr::Ip(b)) => a == b,
            (TargetAddr::Domain(n1, p1), TargetAddr::Domain(n2, p2)) => n1.eq(n2) && p1 == p2,
            _ => false,
        }
    }
}

impl vstd::std_specs::cmp::PartialEqSpecImpl for TargetAddr {
    open spec fn obeys_eq_spec() -> bool {
        true
    }

    open spec fn eq_spec(&self, other: &Self) -> bool {
        self@ == other@
    }
}

/// Relies on `String::from_utf8`: it succeeds exactly on valid UTF-8 input,
/// and then the string's characters are the decoding of those bytes.
#[verifier::external_body]
pub(crate) fn string_from_utf8(bytes: Vec<u8>) -> (r: Option<String>)
    ensures
        r is Some <==> valid_utf8(bytes@),
        r matches Some(s) ==> s@ == decode_utf8(bytes@),
{
    String::from_utf8(bytes).ok()
}

} // verus!
