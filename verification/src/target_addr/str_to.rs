//! Parsing user-supplied address strings. A string is tried, in order, as
//! an IPv4 socket literal (`a.b.c.d:port`), as a bracketed IPv6 socket
//! literal (`[groups]:port`), and finally split on its last colon into a
//! host, kept as a domain name unless it is itself a bare IPv4 or IPv6
//! address, and a port.
//!
//! The grammar is the usual one: decimal octets without leading zeros, one
//! to four hex digits per IPv6 group, at most one `::`, an embedded dotted
//! quad allowed as the last two groups, and a decimal port that fits 16
//! bits. Scope identifiers are not recognized; a bracketed address carrying
//! one falls through to the domain branch.

use vstd::prelude::*;
use vstd::slice::slice_index_get;
use vstd::string::StringSliceAdditionalSpecFns;
use vstd::utf8::{
    decode_utf8, encode_utf8, encode_utf8_decode_utf8, encode_utf8_valid_utf8,
    is_char_boundary_iff_not_is_continuation_byte, valid_utf8,
};

use crate::target_addr::{SocketAddress, TargetAddr, TargetAddrView};

verus! {

/// Why a string could not be parsed into a target address.
#[derive(Clone, Copy, PartialEq, Eq, Structural, Debug)]
pub enum AddrParseError {
    /// No colon splits the string into a host and a port.
    InvalidSocketAddress,
    /// What follows the last colon is not a port number.
    InvalidPortValue,
}

pub open spec fn is_digit(b: u8) -> bool {
    0x30 <= b <= 0x39
}

pub open spec fn all_digits(s: Seq<u8>) -> bool {
    forall|j: int| 0 <= j < s.len() ==> is_digit(#[trigger] s[j])
}

/// The decimal value of a digit string.
pub open spec fn dec_val(s: Seq<u8>) -> nat
    recommends
        all_digits(s),
    decreases s.len(),
{
    if s.len() == 0 {
        0
    } else {
        (dec_val(s.drop_last()) * 10 + (s.last() - 0x30)) as nat
    }
}

/// Every digit prefix is worth no more than the whole string.
proof fn lemma_dec_val_prefix(s: Seq<u8>, i: int)
    requires
        all_digits(s),
        0 <= i <= s.len(),
    ensures
        dec_val(s.take(i)) <= dec_val(s),
    decreases s.len(),
{
    if i < s.len() {
        assert(s.drop_last().take(i) =~= s.take(i));
        lemma_dec_val_prefix(s.drop_last(), i);
    } else {
        assert(s.take(i) =~= s);
    }
}

/// A port in a socket literal: one or more digits whose value fits 16 bits.
pub open spec fn spec_parse_port(s: Seq<u8>) -> Option<u16> {
    if s.len() >= 1 && all_digits(s) && dec_val(s) <= 0xFFFF {
        Option::Some(dec_val(s) as u16)
    } else {
        Option::None
    }
}

/// A port on its own, as the generic split parses it: an optional leading
/// `+`, then digits.
pub open spec fn spec_parse_u16_str(s: Seq<u8>) -> Option<u16> {
    if s.len() >= 1 && s[0] == 0x2b {
        spec_parse_port(s.skip(1))
    } else {
        spec_parse_port(s)
    }
}

/// A dotted-quad octet: one to three digits, no leading zero, value at most
/// 255.
pub open spec fn spec_parse_octet(s: Seq<u8>) -> Option<u8> {
    if 1 <= s.len() <= 3 && all_digits(s) && (s.len() > 1 ==> s[0] != 0x30) && dec_val(s) <= 255 {
        Option::Some(dec_val(s) as u8)
    } else {
        Option::None
    }
}

/// The index of the first occurrence of `t` in `s`, or `s.len()` if there
/// is none.
pub open spec fn find_byte(s: Seq<u8>, t: u8) -> int
    decreases s.len(),
{
    if s.len() == 0 {
        0
    } else if s[0] == t {
        0
    } else {
        1 + find_byte(s.skip(1), t)
    }
}

pub proof fn lemma_find_byte_props(s: Seq<u8>, t: u8)
    ensures
        0 <= find_byte(s, t) <= s.len(),
        find_byte(s, t) < s.len() ==> s[find_byte(s, t)] == t,
        forall|j: int| 0 <= j < find_byte(s, t) ==> s[j] != t,
    decreases s.len(),
{
    if s.len() > 0 && s[0] != t {
        lemma_find_byte_props(s.skip(1), t);
        assert forall|j: int| 0 <= j < find_byte(s, t) implies s[j] != t by {
            if j > 0 {
                assert(s.skip(1)[j - 1] != t);
            }
        }
    }
}

proof fn lemma_find_byte_at(s: Seq<u8>, t: u8, k: int)
    requires
        0 <= k < s.len(),
        s[k] == t,
        forall|j: int| 0 <= j < k ==> #[trigger] s[j] != t,
    ensures
        find_byte(s, t) == k,
    decreases s.len(),
{
    if k > 0 {
        assert forall|j: int| 0 <= j < k - 1 implies #[trigger] s.skip(1)[j] != t by {
            assert(s[j + 1] != t);
        }
        lemma_find_byte_at(s.skip(1), t, k - 1);
    }
}

proof fn lemma_find_byte_none(s: Seq<u8>, t: u8)
    requires
        forall|j: int| 0 <= j < s.len() ==> #[trigger] s[j] != t,
    ensures
        find_byte(s, t) == s.len(),
    decreases s.len(),
{
    if s.len() > 0 {
        assert forall|j: int| 0 <= j < s.skip(1).len() implies #[trigger] s.skip(1)[j] != t by {
            assert(s[j + 1] != t);
        }
        lemma_find_byte_none(s.skip(1), t);
    }
}

/// The index of the last occurrence of `t` in `s`, or `-1` if there is
/// none.
pub open spec fn rfind_byte(s: Seq<u8>, t: u8) -> int
    decreases s.len(),
{
    if s.len() == 0 {
        -1
    } else if s.last() == t {
        s.len() - 1
    } else {
        rfind_byte(s.drop_last(), t)
    }
}

pub proof fn lemma_rfind_byte_props(s: Seq<u8>, t: u8)
    ensures
        -1 <= rfind_byte(s, t) < s.len(),
        rfind_byte(s, t) >= 0 ==> s[rfind_byte(s, t)] == t,
        forall|j: int| rfind_byte(s, t) < j < s.len() ==> s[j] != t,
    decreases s.len(),
{
    if s.len() > 0 && s.last() != t {
        lemma_rfind_byte_props(s.drop_last(), t);
        assert forall|j: int| rfind_byte(s, t) < j < s.len() implies s[j] != t by {
            if j < s.len() - 1 {
                assert(s.drop_last()[j] != t);
            }
        }
    }
}

proof fn lemma_rfind_byte_at(s: Seq<u8>, t: u8, k: int)
    requires
        0 <= k < s.len(),
        s[k] == t,
        forall|j: int| k < j < s.len() ==> #[trigger] s[j] != t,
    ensures
        rfind_byte(s, t) == k,
    decreases s.len(),
{
    if k < s.len() - 1 {
        assert(s.last() != t);
        assert forall|j: int| k < j < s.drop_last().len() implies #[trigger] s.drop_last()[j]
            != t by {
            assert(s[j] != t);
        }
        lemma_rfind_byte_at(s.drop_last(), t, k);
    }
}

proof fn lemma_rfind_byte_none(s: Seq<u8>, t: u8)
    requires
        forall|j: int| 0 <= j < s.len() ==> #[trigger] s[j] != t,
    ensures
        rfind_byte(s, t) == -1,
    decreases s.len(),
{
    if s.len() > 0 {
        assert forall|j: int| 0 <= j < s.drop_last().len() implies #[trigger] s.drop_last()[j]
            != t by {
            assert(s[j] != t);
        }
        lemma_rfind_byte_none(s.drop_last(), t);
    }
}

/// A dotted quad `a.b.c.d` as one 32-bit value.
pub open spec fn spec_parse_ipv4(s: Seq<u8>) -> Option<u32> {
    let i1 = find_byte(s, 0x2e);
    if i1 >= s.len() {
        Option::None
    } else {
        match spec_parse_octet(s.take(i1)) {
            Option::None => Option::None,
            Option::Some(o1) => {
                let r1 = s.skip(i1 + 1);
                let i2 = find_byte(r1, 0x2e);
                if i2 >= r1.len() {
                    Option::None
                } else {
                    match spec_parse_octet(r1.take(i2)) {
                        Option::None => Option::None,
                        Option::Some(o2) => {
                            let r2 = r1.skip(i2 + 1);
                            let i3 = find_byte(r2, 0x2e);
                            if i3 >= r2.len() {
                                Option::None
                            } else {
                                match spec_parse_octet(r2.take(i3)) {
                                    Option::None => Option::None,
                                    Option::Some(o3) => {
                                        match spec_parse_octet(r2.skip(i3 + 1)) {
                                            Option::None => Option::None,
                                            Option::Some(o4) => Option::Some(
                                                (o1 * 0x1000000 + o2 * 0x10000 + o3 * 0x100
                                                    + o4) as u32,
                                            ),
                                        }
                                    },
                                }
                            }
                        },
                    }
                }
            },
        }
    }
}

/// The value of a single hex digit.
pub open spec fn hex_digit_val(b: u8) -> Option<u8> {
    if 0x30 <= b <= 0x39 {
        Option::Some((b - 0x30) as u8)
    } else if 0x61 <= b <= 0x66 {
        Option::Some((b - 0x61 + 10) as u8)
    } else if 0x41 <= b <= 0x46 {
        Option::Some((b - 0x41 + 10) as u8)
    } else {
        Option::None
    }
}

pub open spec fn all_hex(s: Seq<u8>) -> bool {
    forall|j: int| 0 <= j < s.len() ==> hex_digit_val(#[trigger] s[j]) is Some
}

/// The value of a hex digit string.
pub open spec fn hex_val(s: Seq<u8>) -> nat
    recommends
        all_hex(s),
    decreases s.len(),
{
    if s.len() == 0 {
        0
    } else {
        (hex_val(s.drop_last()) * 16 + (match hex_digit_val(s.last()) {
            Option::Some(v) => v as int,
            Option::None => 0,
        })) as nat
    }
}

proof fn lemma_hex_val_bound(s: Seq<u8>)
    requires
        s.len() <= 4,
    ensures
        s.len() <= 0 ==> hex_val(s) < 1,
        s.len() <= 1 ==> hex_val(s) < 0x10,
        s.len() <= 2 ==> hex_val(s) < 0x100,
        s.len() <= 3 ==> hex_val(s) < 0x1000,
        hex_val(s) < 0x10000,
    decreases s.len(),
{
    if s.len() > 0 {
        lemma_hex_val_bound(s.drop_last());
    }
}

/// An IPv6 group: one to four hex digits.
pub open spec fn spec_parse_h16(s: Seq<u8>) -> Option<u16> {
    if 1 <= s.len() <= 4 && all_hex(s) {
        Option::Some(hex_val(s) as u16)
    } else {
        Option::None
    }
}

/// Colon-separated IPv6 groups with no embedded dotted quad, as they may
/// appear before a `::`.
pub open spec fn spec_parse_groups_head(s: Seq<u8>) -> Option<Seq<u16>>
    decreases s.len(),
    via spec_parse_groups_head_dec
{
    let i = find_byte(s, 0x3a);
    if i >= s.len() {
        match spec_parse_h16(s) {
            Option::Some(g) => Option::Some(seq![g]),
            Option::None => Option::None,
        }
    } else {
        match spec_parse_h16(s.take(i)) {
            Option::None => Option::None,
            Option::Some(g) => match spec_parse_groups_head(s.skip(i + 1)) {
                Option::None => Option::None,
                Option::Some(rest) => Option::Some(seq![g] + rest),
            },
        }
    }
}

#[via_fn]
proof fn spec_parse_groups_head_dec(s: Seq<u8>) {
    lemma_find_byte_props(s, 0x3a);
}

/// Colon-separated IPv6 groups where the last piece may be an embedded
/// dotted quad, worth two groups.
pub open spec fn spec_parse_groups_tail(s: Seq<u8>) -> Option<Seq<u16>>
    decreases s.len(),
    via spec_parse_groups_tail_dec
{
    let i = find_byte(s, 0x3a);
    if i >= s.len() {
        match spec_parse_h16(s) {
            Option::Some(g) => Option::Some(seq![g]),
            Option::None => match spec_parse_ipv4(s) {
                Option::Some(v) => Option::Some(seq![(v / 0x10000) as u16, (v % 0x10000) as u16]),
                Option::None => Option::None,
            },
        }
    } else {
        match spec_parse_h16(s.take(i)) {
            Option::None => Option::None,
            Option::Some(g) => match spec_parse_groups_tail(s.skip(i + 1)) {
                Option::None => Option::None,
                Option::Some(rest) => Option::Some(seq![g] + rest),
            },
        }
    }
}

#[via_fn]
proof fn spec_parse_groups_tail_dec(s: Seq<u8>) {
    lemma_find_byte_props(s, 0x3a);
}

/// The value of a group sequence, first group most significant.
pub open spec fn groups_val(g: Seq<u16>) -> nat
    decreases g.len(),
{
    if g.len() == 0 {
        0
    } else {
        (groups_val(g.drop_last()) * 0x10000 + g.last()) as nat
    }
}

/// The index of the first `::` in `s`, or `s.len()` if there is none.
pub open spec fn find_double_colon(s: Seq<u8>) -> int
    decreases s.len(),
{
    if s.len() < 2 {
        s.len() as int
    } else if s[0] == 0x3a && s[1] == 0x3a {
        0
    } else {
        1 + find_double_colon(s.skip(1))
    }
}

pub proof fn lemma_find_double_colon_props(s: Seq<u8>)
    ensures
        0 <= find_double_colon(s) <= s.len(),
        find_double_colon(s) < s.len() ==> find_double_colon(s) + 1 < s.len() && s[
            find_double_colon(s)
        ] == 0x3a && s[find_double_colon(s) + 1] == 0x3a,
        forall|j: int|
            0 <= j < find_double_colon(s) && j + 1 < s.len() ==> !(#[trigger] s[j] == 0x3a && s[j
                + 1] == 0x3a),
    decreases s.len(),
{
    if s.len() >= 2 && !(s[0] == 0x3a && s[1] == 0x3a) {
        lemma_find_double_colon_props(s.skip(1));
        assert forall|j: int|
            0 <= j < find_double_colon(s) && j + 1 < s.len() implies !(#[trigger] s[j] == 0x3a
            && s[j + 1] == 0x3a) by {
            if j > 0 {
                assert(!(s.skip(1)[j - 1] == 0x3a && s.skip(1)[j] == 0x3a));
            }
        }
    } else if s.len() < 2 {
    }
}

proof fn lemma_find_double_colon_at(s: Seq<u8>, k: int)
    requires
        0 <= k,
        k + 1 < s.len(),
        s[k] == 0x3a,
        s[k + 1] == 0x3a,
        forall|j: int| 0 <= j < k ==> !(#[trigger] s[j] == 0x3a && s[j + 1] == 0x3a),
    ensures
        find_double_colon(s) == k,
    decreases s.len(),
{
    if k > 0 {
        assert(!(s[0] == 0x3a && s[1] == 0x3a));
        assert forall|j: int| 0 <= j < k - 1 implies !(#[trigger] s.skip(1)[j] == 0x3a && s.skip(
            1,
        )[j + 1] == 0x3a) by {
            assert(!(s[j + 1] == 0x3a && s[j + 2] == 0x3a));
            assert(s.skip(1)[j] == s[j + 1]);
            assert(s.skip(1)[j + 1] == s[j + 2]);
        }
        lemma_find_double_colon_at(s.skip(1), k - 1);
    }
}

proof fn lemma_find_double_colon_none(s: Seq<u8>)
    requires
        forall|j: int| 0 <= j && j + 1 < s.len() ==> !(#[trigger] s[j] == 0x3a && s[j + 1]
            == 0x3a),
    ensures
        find_double_colon(s) == s.len(),
    decreases s.len(),
{
    if s.len() >= 2 {
        assert(!(s[0] == 0x3a && s[1] == 0x3a));
        assert forall|j: int| 0 <= j && j + 1 < s.skip(1).len() implies !(#[trigger] s.skip(
            1,
        )[j] == 0x3a && s.skip(1)[j + 1] == 0x3a) by {
            assert(!(s[j + 1] == 0x3a && s[j + 2] == 0x3a));
            assert(s.skip(1)[j] == s[j + 1]);
            assert(s.skip(1)[j + 1] == s[j + 2]);
        }
        lemma_find_double_colon_none(s.skip(1));
    }
}

/// A bare IPv6 address: eight groups, or fewer with one `::` standing for
/// the missing zero groups.
pub open spec fn spec_parse_ipv6(s: Seq<u8>) -> Option<u128> {
    let dc = find_double_colon(s);
    if dc >= s.len() {
        match spec_parse_groups_tail(s) {
            Option::None => Option::None,
            Option::Some(g) => if g.len() == 8 {
                Option::Some(groups_val(g) as u128)
            } else {
                Option::None
            },
        }
    } else {
        let head = s.take(dc);
        let tail = s.skip(dc + 2);
        let hg = if head.len() == 0 {
            Option::Some(Seq::<u16>::empty())
        } else {
            spec_parse_groups_head(head)
        };
        let tg = if tail.len() == 0 {
            Option::Some(Seq::<u16>::empty())
        } else {
            spec_parse_groups_tail(tail)
        };
        match hg {
            Option::None => Option::None,
            Option::Some(h) => match tg {
                Option::None => Option::None,
                Option::Some(t) => if h.len() + t.len() <= 7 {
                    Option::Some(
                        groups_val(
                            h + Seq::new((8 - h.len() - t.len()) as nat, |j: int| 0u16) + t,
                        ) as u128,
                    )
                } else {
                    Option::None
                },
            },
        }
    }
}

/// An IPv4 socket literal `a.b.c.d:port`.
pub open spec fn spec_parse_sock_v4(s: Seq<u8>) -> Option<(u32, u16)> {
    let i = find_byte(s, 0x3a);
    if i >= s.len() {
        Option::None
    } else {
        match spec_parse_ipv4(s.take(i)) {
            Option::None => Option::None,
            Option::Some(ip) => match spec_parse_port(s.skip(i + 1)) {
                Option::None => Option::None,
                Option::Some(p) => Option::Some((ip, p)),
            },
        }
    }
}

/// A bracketed IPv6 socket literal `[address]:port`.
pub open spec fn spec_parse_sock_v6(s: Seq<u8>) -> Option<(u128, u16)> {
    if s.len() < 2 || s[0] != 0x5b {
        Option::None
    } else {
        let j = find_byte(s, 0x5d);
        if j >= s.len() || j + 1 >= s.len() || s[j + 1] != 0x3a {
            Option::None
        } else {
            match spec_parse_ipv6(s.subrange(1, j)) {
                Option::None => Option::None,
                Option::Some(ip) => match spec_parse_port(s.skip(j + 2)) {
                    Option::None => Option::None,
                    Option::Some(p) => Option::Some((ip, p)),
                },
            }
        }
    }
}

/// What a bare host with a known port stands for: a bare IPv4 address, a
/// bare IPv6 address, or a domain name.
pub open spec fn spec_host_target(host: Seq<u8>, port: u16) -> TargetAddrView {
    match spec_parse_ipv4(host) {
        Option::Some(ip) => TargetAddrView::Ip(SocketAddress::V4 { ip, port }),
        Option::None => match spec_parse_ipv6(host) {
            Option::Some(ip) => TargetAddrView::Ip(SocketAddress::V6 { ip, port }),
            Option::None => TargetAddrView::Domain { name: decode_utf8(host), port },
        },
    }
}

/// The outcome of parsing an address string.
pub enum TargetParse {
    Done(TargetAddrView),
    /// No colon splits the string into host and port.
    BadAddr,
    /// The part after the last colon is not a port.
    BadPort,
}

/// Parsing an address string: an IPv4 socket literal, else a bracketed IPv6
/// socket literal, else a split on the last colon with the host kept as a
/// bare address where it is one, and as a domain name otherwise.
pub open spec fn spec_str_to_target(s: Seq<u8>) -> TargetParse {
    match spec_parse_sock_v4(s) {
        Option::Some((ip, port)) => TargetParse::Done(
            TargetAddrView::Ip(SocketAddress::V4 { ip, port }),
        ),
        Option::None => match spec_parse_sock_v6(s) {
            Option::Some((ip, port)) => TargetParse::Done(
                TargetAddrView::Ip(SocketAddress::V6 { ip, port }),
            ),
            Option::None => {
                let i = rfind_byte(s, 0x3a);
                if i < 0 {
                    TargetParse::BadAddr
                } else {
                    match spec_parse_u16_str(s.skip(i + 1)) {
                        Option::None => TargetParse::BadPort,
                        Option::Some(p) => TargetParse::Done(spec_host_target(s.take(i), p)),
                    }
                }
            },
        },
    }
}

/// Finds the first `t` in `b[lo..hi]`, or returns `hi`.
fn find_byte_range(b: &[u8], lo: usize, hi: usize, t: u8) -> (r: usize)
    requires
        lo <= hi <= b@.len(),
    ensures
        lo <= r <= hi,
        r as int == lo + find_byte(b@.subrange(lo as int, hi as int), t),
{
    let ghost sub = b@.subrange(lo as int, hi as int);
    proof {
        lemma_find_byte_props(sub, t);
    }
    let mut i = lo;
    while i < hi
        invariant
            lo <= i <= hi <= b@.len(),
            sub == b@.subrange(lo as int, hi as int),
            forall|j: int| lo <= j < i ==> b@[j] != t,
        decreases hi - i,
    {
        if *slice_index_get(b, i) == t {
            proof {
                assert(sub[i - lo] == t);
                assert forall|j: int| 0 <= j < i - lo implies #[trigger] sub[j] != t by {
                    assert(b@[lo + j] != t);
                }
                lemma_find_byte_at(sub, t, i - lo);
            }
            return i;
        }
        i += 1;
    }
    proof {
        assert forall|j: int| 0 <= j < sub.len() implies #[trigger] sub[j] != t by {
            assert(b@[lo + j] != t);
        }
        lemma_find_byte_none(sub, t);
    }
    hi
}

/// Finds the last `t` in `b[lo..hi]`, or returns nothing.
fn rfind_byte_range(b: &[u8], lo: usize, hi: usize, t: u8) -> (r: Option<usize>)
    requires
        lo <= hi <= b@.len(),
    ensures
        ({
            let f = rfind_byte(b@.subrange(lo as int, hi as int), t);
            &&& (r is Some <==> f >= 0)
            &&& (r matches Some(k) ==> lo <= k < hi && k as int == lo + f)
        }),
{
    let ghost sub = b@.subrange(lo as int, hi as int);
    proof {
        lemma_rfind_byte_props(sub, t);
    }
    let mut i = hi;
    while i > lo
        invariant
            lo <= i <= hi <= b@.len(),
            sub == b@.subrange(lo as int, hi as int),
            forall|j: int| i <= j < hi ==> b@[j] != t,
        decreases i,
    {
        i = i - 1;
        if *slice_index_get(b, i) == t {
            proof {
                assert(sub[i - lo] == t);
                assert forall|j: int| i - lo < j < sub.len() implies #[trigger] sub[j] != t by {
                    assert(b@[lo + j] != t);
                }
                lemma_rfind_byte_at(sub, t, i - lo);
            }
            return Some(i);
        }
    }
    proof {
        assert forall|j: int| 0 <= j < sub.len() implies #[trigger] sub[j] != t by {
            assert(b@[lo + j] != t);
        }
        lemma_rfind_byte_none(sub, t);
    }
    None
}

/// Finds the first `::` in `b[lo..hi]`, or returns `hi`.
fn find_double_colon_range(b: &[u8], lo: usize, hi: usize) -> (r: usize)
    requires
        lo <= hi <= b@.len(),
    ensures
        lo <= r <= hi,
        r as int == lo + find_double_colon(b@.subrange(lo as int, hi as int)),
        r < hi ==> r + 1 < hi,
{
    let ghost sub = b@.subrange(lo as int, hi as int);
    proof {
        lemma_find_double_colon_props(sub);
    }
    if hi - lo < 2 {
        return hi;
    }
    let mut i = lo;
    while i < hi - 1
        invariant
            lo <= i <= hi <= b@.len(),
            hi - lo >= 2,
            sub == b@.subrange(lo as int, hi as int),
            forall|j: int| lo <= j < i ==> !(#[trigger] b@[j] == 0x3a && b@[j + 1] == 0x3a),
        decreases hi - i,
    {
        if *slice_index_get(b, i) == 0x3a && *slice_index_get(b, i + 1) == 0x3a {
            proof {
                assert(sub[i - lo] == 0x3a && sub[i - lo + 1] == 0x3a);
                assert forall|j: int| 0 <= j < i - lo implies !(#[trigger] sub[j] == 0x3a && sub[
                    j + 1
                ] == 0x3a) by {
                    assert(!(b@[lo + j] == 0x3a && b@[lo + j + 1] == 0x3a));
                    assert(sub[j] == b@[lo + j]);
                    assert(sub[j + 1] == b@[lo + j + 1]);
                }
                lemma_find_double_colon_at(sub, i - lo);
            }
            return i;
        }
        i += 1;
    }
    proof {
        assert forall|j: int| 0 <= j && j + 1 < sub.len() implies !(#[trigger] sub[j] == 0x3a
            && sub[j + 1] == 0x3a) by {
            assert(!(b@[lo + j] == 0x3a && b@[lo + j + 1] == 0x3a));
            assert(sub[j] == b@[lo + j]);
            assert(sub[j + 1] == b@[lo + j + 1]);
        }
        lemma_find_double_colon_none(sub);
    }
    hi
}

/// Decimal digit strings of at most three digits stay small.
proof fn lemma_dec_val_small(s: Seq<u8>)
    requires
        all_digits(s),
        s.len() <= 3,
    ensures
        s.len() <= 0 ==> dec_val(s) < 1,
        s.len() <= 1 ==> dec_val(s) <= 9,
        s.len() <= 2 ==> dec_val(s) <= 99,
        dec_val(s) <= 999,
    decreases s.len(),
{
    if s.len() > 0 {
        assert(all_digits(s.drop_last())) by {
            assert forall|j: int| 0 <= j < s.drop_last().len() implies is_digit(
                #[trigger] s.drop_last()[j],
            ) by {
                assert(is_digit(s[j]));
            }
        }
        lemma_dec_val_small(s.drop_last());
    }
}

/// Reads a digit string in `b[lo..hi]` as a port number.
fn parse_port_range(b: &[u8], lo: usize, hi: usize) -> (r: Option<u16>)
    requires
        lo <= hi <= b@.len(),
    ensures
        r == spec_parse_port(b@.subrange(lo as int, hi as int)),
{
    let ghost sub = b@.subrange(lo as int, hi as int);
    if hi == lo {
        return None;
    }
    let mut acc: u32 = 0;
    let mut i = lo;
    while i < hi
        invariant
            lo <= i <= hi <= b@.len(),
            lo < hi,
            sub == b@.subrange(lo as int, hi as int),
            acc as nat == dec_val(sub.take(i - lo)),
            all_digits(sub.take(i - lo)),
            acc <= 0xFFFF,
        decreases hi - i,
    {
        let c = *slice_index_get(b, i);
        if c < 0x30 || c > 0x39 {
            proof {
                assert(sub[i - lo] == c);
                assert(!all_digits(sub));
            }
            return None;
        }
        let acc2 = acc * 10 + (c - 0x30) as u32;
        proof {
            let p = sub.take(i - lo + 1);
            assert(p.drop_last() =~= sub.take(i - lo));
            assert(p.last() == c);
            assert(all_digits(p)) by {
                assert forall|j: int| 0 <= j < p.len() implies is_digit(#[trigger] p[j]) by {
                    if j < i - lo {
                        assert(is_digit(sub.take(i - lo)[j]));
                    }
                }
            }
            assert(acc2 as nat == dec_val(p));
        }
        if acc2 > 0xFFFF {
            proof {
                if all_digits(sub) {
                    lemma_dec_val_prefix(sub, i - lo + 1);
                }
            }
            return None;
        }
        acc = acc2;
        i += 1;
    }
    proof {
        assert(sub.take(hi - lo) =~= sub);
    }
    Some(acc as u16)
}

/// Reads a dotted-quad octet in `b[lo..hi]`.
fn parse_octet_range(b: &[u8], lo: usize, hi: usize) -> (r: Option<u8>)
    requires
        lo <= hi <= b@.len(),
    ensures
        r == spec_parse_octet(b@.subrange(lo as int, hi as int)),
{
    let ghost sub = b@.subrange(lo as int, hi as int);
    let n = hi - lo;
    if n < 1 || n > 3 {
        return None;
    }
    if n > 1 && *slice_index_get(b, lo) == 0x30 {
        return None;
    }
    match parse_port_range(b, lo, hi) {
        Option::None => {
            proof {
                if all_digits(sub) {
                    lemma_dec_val_small(sub);
                }
            }
            None
        },
        Option::Some(v) => {
            if v > 255 {
                None
            } else {
                Some(v as u8)
            }
        },
    }
}

/// Reads a port with an optional leading `+` in `b[lo..hi]`.
fn parse_u16_str_range(b: &[u8], lo: usize, hi: usize) -> (r: Option<u16>)
    requires
        lo <= hi <= b@.len(),
    ensures
        r == spec_parse_u16_str(b@.subrange(lo as int, hi as int)),
{
    let ghost sub = b@.subrange(lo as int, hi as int);
    if hi > lo && *slice_index_get(b, lo) == 0x2b {
        let r = parse_port_range(b, lo + 1, hi);
        proof {
            assert(sub.skip(1) =~= b@.subrange(lo as int + 1, hi as int));
        }
        r
    } else {
        parse_port_range(b, lo, hi)
    }
}

/// The value of a single hex digit.
fn hex_digit(c: u8) -> (r: Option<u8>)
    ensures
        r == hex_digit_val(c),
{
    if 0x30 <= c && c <= 0x39 {
        Some(c - 0x30)
    } else if 0x61 <= c && c <= 0x66 {
        Some(c - 0x61 + 10)
    } else if 0x41 <= c && c <= 0x46 {
        Some(c - 0x41 + 10)
    } else {
        None
    }
}

/// Reads an IPv6 group of one to four hex digits in `b[lo..hi]`.
fn parse_h16_range(b: &[u8], lo: usize, hi: usize) -> (r: Option<u16>)
    requires
        lo <= hi <= b@.len(),
    ensures
        r == spec_parse_h16(b@.subrange(lo as int, hi as int)),
{
    let ghost sub = b@.subrange(lo as int, hi as int);
    let n = hi - lo;
    if n < 1 || n > 4 {
        return None;
    }
    let mut acc: u32 = 0;
    let mut i = lo;
    while i < hi
        invariant
            lo <= i <= hi <= b@.len(),
            hi - lo <= 4,
            sub == b@.subrange(lo as int, hi as int),
            acc as nat == hex_val(sub.take(i - lo)),
            all_hex(sub.take(i - lo)),
            acc <= 0xFFFF,
        decreases hi - i,
    {
        let c = *slice_index_get(b, i);
        match hex_digit(c) {
            Option::None => {
                proof {
                    assert(sub[i - lo] == c);
                    assert(!all_hex(sub));
                }
                return None;
            },
            Option::Some(d) => {
                proof {
                    let p = sub.take(i - lo + 1);
                    assert(p.drop_last() =~= sub.take(i - lo));
                    assert(p.last() == c);
                    assert(all_hex(p)) by {
                        assert forall|j: int| 0 <= j < p.len() implies hex_digit_val(
                            #[trigger] p[j],
                        ) is Some by {
                            if j < i - lo {
                                assert(hex_digit_val(sub.take(i - lo)[j]) is Some);
                            }
                        }
                    }
                    lemma_hex_val_bound(sub.take(i - lo));
                }
                acc = acc * 16 + d as u32;
                i += 1;
            },
        }
    }
    proof {
        assert(sub.take(hi - lo) =~= sub);
        lemma_hex_val_bound(sub);
    }
    Some(acc as u16)
}

/// Reads a dotted quad in `b[lo..hi]`.
fn parse_ipv4_range(b: &[u8], lo: usize, hi: usize) -> (r: Option<u32>)
    requires
        lo <= hi <= b@.len(),
    ensures
        r == spec_parse_ipv4(b@.subrange(lo as int, hi as int)),
{
    let ghost sub = b@.subrange(lo as int, hi as int);
    let i1 = find_byte_range(b, lo, hi, 0x2e);
    if i1 == hi {
        return None;
    }
    proof {
        assert(sub.take(i1 - lo) =~= b@.subrange(lo as int, i1 as int));
    }
    let o1 = match parse_octet_range(b, lo, i1) {
        Option::None => {
            return None;
        },
        Option::Some(o) => o,
    };
    let ghost r1 = sub.skip(i1 - lo + 1);
    proof {
        assert(r1 =~= b@.subrange(i1 as int + 1, hi as int));
    }
    let i2 = find_byte_range(b, i1 + 1, hi, 0x2e);
    if i2 == hi {
        return None;
    }
    proof {
        assert(r1.take(i2 - (i1 + 1)) =~= b@.subrange(i1 as int + 1, i2 as int));
    }
    let o2 = match parse_octet_range(b, i1 + 1, i2) {
        Option::None => {
            return None;
        },
        Option::Some(o) => o,
    };
    let ghost r2 = r1.skip(i2 - (i1 + 1) + 1);
    proof {
        assert(r2 =~= b@.subrange(i2 as int + 1, hi as int));
    }
    let i3 = find_byte_range(b, i2 + 1, hi, 0x2e);
    if i3 == hi {
        return None;
    }
    proof {
        assert(r2.take(i3 - (i2 + 1)) =~= b@.subrange(i2 as int + 1, i3 as int));
    }
    let o3 = match parse_octet_range(b, i2 + 1, i3) {
        Option::None => {
            return None;
        },
        Option::Some(o) => o,
    };
    proof {
        assert(r2.skip(i3 - (i2 + 1) + 1) =~= b@.subrange(i3 as int + 1, hi as int));
    }
    let o4 = match parse_octet_range(b, i3 + 1, hi) {
        Option::None => {
            return None;
        },
        Option::Some(o) => o,
    };
    Some((o1 as u32) * 0x1000000 + (o2 as u32) * 0x10000 + (o3 as u32) * 0x100 + (o4 as u32))
}

/// Reads colon-separated groups with no embedded dotted quad in `b[lo..hi]`.
fn parse_groups_head_range(b: &[u8], lo: usize, hi: usize) -> (r: Option<Vec<u16>>)
    requires
        lo <= hi <= b@.len(),
    ensures
        ({
            let sp = spec_parse_groups_head(b@.subrange(lo as int, hi as int));
            &&& (r is Some <==> sp is Some)
            &&& (r matches Some(v) ==> sp == Option::Some(v@))
        }),
    decreases hi - lo,
{
    let ghost sub = b@.subrange(lo as int, hi as int);
    let i = find_byte_range(b, lo, hi, 0x3a);
    if i == hi {
        match parse_h16_range(b, lo, hi) {
            Option::Some(g) => {
                let mut v: Vec<u16> = Vec::new();
                v.push(g);
                proof {
                    assert(v@ =~= seq![g]);
                }
                Some(v)
            },
            Option::None => None,
        }
    } else {
        proof {
            assert(sub.take(i - lo) =~= b@.subrange(lo as int, i as int));
            assert(sub.skip(i - lo + 1) =~= b@.subrange(i as int + 1, hi as int));
        }
        match parse_h16_range(b, lo, i) {
            Option::None => None,
            Option::Some(g) => match parse_groups_head_range(b, i + 1, hi) {
                Option::None => None,
                Option::Some(rest) => {
                    let ghost rest_view = rest@;
                    let mut rest = rest;
                    let mut v: Vec<u16> = Vec::new();
                    v.push(g);
                    v.append(&mut rest);
                    proof {
                        assert(v@ =~= seq![g] + rest_view);
                    }
                    Some(v)
                },
            },
        }
    }
}

/// Reads colon-separated groups whose last piece may be an embedded dotted
/// quad in `b[lo..hi]`.
fn parse_groups_tail_range(b: &[u8], lo: usize, hi: usize) -> (r: Option<Vec<u16>>)
    requires
        lo <= hi <= b@.len(),
    ensures
        ({
            let sp = spec_parse_groups_tail(b@.subrange(lo as int, hi as int));
            &&& (r is Some <==> sp is Some)
            &&& (r matches Some(v) ==> sp == Option::Some(v@))
        }),
    decreases hi - lo,
{
    let ghost sub = b@.subrange(lo as int, hi as int);
    let i = find_byte_range(b, lo, hi, 0x3a);
    if i == hi {
        match parse_h16_range(b, lo, hi) {
            Option::Some(g) => {
                let mut v: Vec<u16> = Vec::new();
                v.push(g);
                proof {
                    assert(v@ =~= seq![g]);
                }
                Some(v)
            },
            Option::None => match parse_ipv4_range(b, lo, hi) {
                Option::Some(ip) => {
                    let mut v: Vec<u16> = Vec::new();
                    v.push((ip / 0x10000) as u16);
                    v.push((ip % 0x10000) as u16);
                    proof {
                        assert(v@ =~= seq![(ip / 0x10000) as u16, (ip % 0x10000) as u16]);
                    }
                    Some(v)
                },
                Option::None => None,
            },
        }
    } else {
        proof {
            assert(sub.take(i - lo) =~= b@.subrange(lo as int, i as int));
            assert(sub.skip(i - lo + 1) =~= b@.subrange(i as int + 1, hi as int));
        }
        match parse_h16_range(b, lo, i) {
            Option::None => None,
            Option::Some(g) => match parse_groups_tail_range(b, i + 1, hi) {
                Option::None => None,
                Option::Some(rest) => {
                    let ghost rest_view = rest@;
                    let mut rest = rest;
                    let mut v: Vec<u16> = Vec::new();
                    v.push(g);
                    v.append(&mut rest);
                    proof {
                        assert(v@ =~= seq![g] + rest_view);
                    }
                    Some(v)
                },
            },
        }
    }
}

/// Group sequences stay below the width they can address.
proof fn lemma_groups_val_bound(g: Seq<u16>)
    requires
        g.len() <= 8,
    ensures
        g.len() <= 0 ==> groups_val(g) < 1,
        g.len() <= 1 ==> groups_val(g) < 0x10000,
        g.len() <= 2 ==> groups_val(g) < 0x100000000,
        g.len() <= 3 ==> groups_val(g) < 0x1000000000000,
        g.len() <= 4 ==> groups_val(g) < 0x10000000000000000,
        g.len() <= 5 ==> groups_val(g) < 0x100000000000000000000,
        g.len() <= 6 ==> groups_val(g) < 0x1000000000000000000000000,
        g.len() <= 7 ==> groups_val(g) < 0x10000000000000000000000000000,
        groups_val(g) < 0x100000000000000000000000000000000,
    decreases g.len(),
{
    if g.len() > 0 {
        lemma_groups_val_bound(g.drop_last());
    }
}

/// Folds exactly eight groups into the 128-bit address value.
fn groups_to_val(g: &Vec<u16>) -> (r: u128)
    requires
        g@.len() == 8,
    ensures
        r as nat == groups_val(g@),
{
    let mut acc: u128 = 0;
    let mut i: usize = 0;
    proof {
        assert(g@.take(0) =~= Seq::<u16>::empty());
    }
    while i < 8
        invariant
            0 <= i <= 8,
            g@.len() == 8,
            acc as nat == groups_val(g@.take(i as int)),
        decreases 8 - i,
    {
        proof {
            let p = g@.take(i + 1);
            assert(p.drop_last() =~= g@.take(i as int));
            assert(p.last() == g@[i as int]);
            lemma_groups_val_bound(g@.take(i as int));
        }
        acc = acc * 0x10000 + (g[i] as u128);
        i += 1;
    }
    proof {
        assert(g@.take(8) =~= g@);
    }
    acc
}

/// Reads a bare IPv6 address in `b[lo..hi]`.
fn parse_ipv6_range(b: &[u8], lo: usize, hi: usize) -> (r: Option<u128>)
    requires
        lo <= hi <= b@.len(),
    ensures
        r == spec_parse_ipv6(b@.subrange(lo as int, hi as int)),
{
    let ghost sub = b@.subrange(lo as int, hi as int);
    let dc = find_double_colon_range(b, lo, hi);
    if dc == hi {
        match parse_groups_tail_range(b, lo, hi) {
            Option::None => None,
            Option::Some(g) => {
                if g.len() == 8 {
                    Some(groups_to_val(&g))
                } else {
                    None
                }
            },
        }
    } else {
        proof {
            assert(sub.take(dc - lo) =~= b@.subrange(lo as int, dc as int));
            assert(sub.skip(dc - lo + 2) =~= b@.subrange(dc as int + 2, hi as int));
        }
        let h: Vec<u16> = if dc == lo {
            Vec::new()
        } else {
            match parse_groups_head_range(b, lo, dc) {
                Option::None => {
                    return None;
                },
                Option::Some(v) => v,
            }
        };
        let t: Vec<u16> = if dc + 2 == hi {
            Vec::new()
        } else {
            match parse_groups_tail_range(b, dc + 2, hi) {
                Option::None => {
                    return None;
                },
                Option::Some(v) => v,
            }
        };
        if h.len() > 7 || t.len() > 7 - h.len() {
            return None;
        }
        let zeros = 8 - h.len() - t.len();
        let mut g8: Vec<u16> = Vec::new();
        let mut i: usize = 0;
        while i < h.len()
            invariant
                0 <= i <= h@.len(),
                g8@ =~= h@.take(i as int),
            decreases h@.len() - i,
        {
            g8.push(h[i]);
            i += 1;
        }
        let mut z: usize = 0;
        while z < zeros
            invariant
                0 <= z <= zeros,
                g8@ =~= h@ + Seq::new(z as nat, |j: int| 0u16),
                zeros == 8 - h@.len() - t@.len(),
                h@.len() + t@.len() <= 7,
            decreases zeros - z,
        {
            g8.push(0);
            z += 1;
        }
        let mut k: usize = 0;
        while k < t.len()
            invariant
                0 <= k <= t@.len(),
                g8@ =~= h@ + Seq::new((8 - h@.len() - t@.len()) as nat, |j: int| 0u16)
                    + t@.take(k as int),
                h@.len() + t@.len() <= 7,
            decreases t@.len() - k,
        {
            g8.push(t[k]);
            k += 1;
        }
        proof {
            assert(t@.take(t@.len() as int) =~= t@);
            assert(g8@.len() == 8);
        }
        Some(groups_to_val(&g8))
    }
}

/// Reads a whole IPv4 socket literal.
fn parse_sock_v4(b: &[u8]) -> (r: Option<(u32, u16)>)
    ensures
        r == spec_parse_sock_v4(b@),
{
    let n = b.len();
    let i = find_byte_range(b, 0, n, 0x3a);
    proof {
        assert(b@.subrange(0, n as int) =~= b@);
    }
    if i == n {
        return None;
    }
    proof {
        assert(b@.take(i as int) =~= b@.subrange(0, i as int));
        assert(b@.skip(i as int + 1) =~= b@.subrange(i as int + 1, n as int));
    }
    match parse_ipv4_range(b, 0, i) {
        Option::None => None,
        Option::Some(ip) => match parse_port_range(b, i + 1, n) {
            Option::None => None,
            Option::Some(p) => Some((ip, p)),
        },
    }
}

/// Reads a whole bracketed IPv6 socket literal.
fn parse_sock_v6(b: &[u8]) -> (r: Option<(u128, u16)>)
    ensures
        r == spec_parse_sock_v6(b@),
{
    let n = b.len();
    if n < 2 || *slice_index_get(b, 0) != 0x5b {
        return None;
    }
    let j = find_byte_range(b, 0, n, 0x5d);
    proof {
        assert(b@.subrange(0, n as int) =~= b@);
    }
    if j == n {
        return None;
    }
    if j + 1 >= n || *slice_index_get(b, j + 1) != 0x3a {
        return None;
    }
    proof {
        assert(b@.skip(j as int + 2) =~= b@.subrange(j as int + 2, n as int));
        lemma_find_byte_props(b@, 0x5d);
        assert(b@[j as int] == 0x5d);
    }
    match parse_ipv6_range(b, 1, j) {
        Option::None => None,
        Option::Some(ip) => match parse_port_range(b, j + 2, n) {
            Option::None => None,
            Option::Some(p) => Some((ip, p)),
        },
    }
}

/// What a bare host with a known port stands for: a bare IPv4 address, a
/// bare IPv6 address, or else a domain name kept as given.
pub fn host_port_to_target_addr(host: &str, port: u16) -> (r: TargetAddr)
    ensures
        r@ == spec_host_target(host.spec_bytes(), port),
{
    let b = host.as_bytes();
    let n = b.len();
    proof {
        assert(b@.subrange(0, n as int) =~= b@);
    }
    match parse_ipv4_range(b, 0, n) {
        Option::Some(ip) => TargetAddr::Ip(SocketAddress::V4 { ip, port }),
        Option::None => match parse_ipv6_range(b, 0, n) {
            Option::Some(ip) => TargetAddr::Ip(SocketAddress::V6 { ip, port }),
            Option::None => {
                let name = host.to_owned();
                proof {
                    encode_utf8_decode_utf8(host@);
                }
                TargetAddr::Domain(name, port)
            },
        },
    }
}

/// Parses an address string: an IPv4 socket literal, else a bracketed IPv6
/// socket literal, else a split on the last colon into host and port, with
/// the host kept as a bare address where it is one and as a domain name
/// otherwise.
pub fn str_to_target_addr(s: &str) -> (r: Result<TargetAddr, AddrParseError>)
    ensures
        ({
            let t = spec_str_to_target(s.spec_bytes());
            &&& (t matches TargetParse::Done(v) ==> (r matches Ok(a) && a@ == v))
            &&& (t is Done <==> r is Ok)
            &&& (t is BadAddr <==> r == Err::<TargetAddr, _>(AddrParseError::InvalidSocketAddress))
            &&& (t is BadPort <==> r == Err::<TargetAddr, _>(AddrParseError::InvalidPortValue))
        }),
{
    let b = s.as_bytes();
    let n = b.len();
    match parse_sock_v4(b) {
        Option::Some((ip, port)) => {
            return Ok(TargetAddr::Ip(SocketAddress::V4 { ip, port }));
        },
        Option::None => {},
    }
    match parse_sock_v6(b) {
        Option::Some((ip, port)) => {
            return Ok(TargetAddr::Ip(SocketAddress::V6 { ip, port }));
        },
        Option::None => {},
    }
    let j = match rfind_byte_range(b, 0, n, 0x3a) {
        Option::None => {
            proof {
                assert(b@.subrange(0, n as int) =~= b@);
            }
            return Err(AddrParseError::InvalidSocketAddress);
        },
        Option::Some(j) => j,
    };
    proof {
        assert(b@.subrange(0, n as int) =~= b@);
        assert(b@.skip(j as int + 1) =~= b@.subrange(j as int + 1, n as int));
    }
    let port = match parse_u16_str_range(b, j + 1, n) {
        Option::None => {
            return Err(AddrParseError::InvalidPortValue);
        },
        Option::Some(p) => p,
    };
    proof {
        encode_utf8_valid_utf8(s@);
        lemma_rfind_byte_props(b@, 0x3a);
        is_char_boundary_iff_not_is_continuation_byte(s.spec_bytes(), j as int);
    }
    let (host, _rest) = s.split_at(j);
    proof {
        assert(host.spec_bytes() =~= b@.take(j as int));
    }
    Ok(host_port_to_target_addr(host, port))
}

/// Conversion of a value into a target address.
pub trait ToTargetAddr {
    fn to_target_addr(&self) -> Result<TargetAddr, AddrParseError>;
}

impl ToTargetAddr for str {
    /// Parses the string as `str_to_target_addr` does.
    fn to_target_addr(&self) -> (r: Result<TargetAddr, AddrParseError>)
        ensures
            ({
                let t = spec_str_to_target(self.spec_bytes());
                &&& (t matches TargetParse::Done(v) ==> (r matches Ok(a) && a@ == v))
                &&& (t is Done <==> r is Ok)
                &&& (t is BadAddr <==> r == Err::<TargetAddr, _>(
                    AddrParseError::InvalidSocketAddress,
                ))
                &&& (t is BadPort <==> r == Err::<TargetAddr, _>(AddrParseError::InvalidPortValue))
            }),
    {
        str_to_target_addr(self)
    }
}

impl<'a> ToTargetAddr for (&'a str, u16) {
    /// A (host, port) pair: the host as a bare address where it is one, and
    /// as a domain name otherwise. This never fails.
    fn to_target_addr(&self) -> (r: Result<TargetAddr, AddrParseError>)
        ensures
            r matches Ok(a) && a@ == spec_host_target(self.0.spec_bytes(), self.1),
    {
        Ok(host_port_to_target_addr(self.0, self.1))
    }
}


} // verus!
