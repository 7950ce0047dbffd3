//! Big-endian ("network byte order") encoding of unsigned values, the only
//! numeric layout SOCKS5 uses on the wire.

use vstd::prelude::*;
use vstd::arithmetic::div_mod::lemma_fundamental_div_mod;
use vstd::arithmetic::power::{lemma_pow_increases, pow};
use vstd::slice::slice_index_get;

verus! {

proof fn lemma_pow256_16()
    ensures
        pow(256, 16) == 0x100000000000000000000000000000000,
{
    reveal_with_fuel(pow, 17);
}

/// The big-endian encoding of `x` in exactly `n` bytes, most significant
/// byte first; only the low `n` bytes of `x` are represented.
pub open spec fn be_bytes(x: nat, n: nat) -> Seq<u8>
    decreases n,
{
    if n == 0 {
        Seq::empty()
    } else {
        be_bytes(x / 256, (n - 1) as nat).push((x % 256) as u8)
    }
}

/// The value of a byte sequence read big-endian.
pub open spec fn be_val(s: Seq<u8>) -> nat
    decreases s.len(),
{
    if s.len() == 0 {
        0
    } else {
        (be_val(s.drop_last()) * 256 + s.last()) as nat
    }
}

pub proof fn lemma_be_bytes_len(x: nat, n: nat)
    ensures
        be_bytes(x, n).len() == n,
    decreases n,
{
    if n > 0 {
        lemma_be_bytes_len(x / 256, (n - 1) as nat);
    }
}

pub proof fn lemma_be_val_bound(s: Seq<u8>)
    ensures
        be_val(s) < pow(256, s.len()),
    decreases s.len(),
{
    reveal(pow);
    if s.len() == 0 {
    } else {
        let v = be_val(s.drop_last());
        let p = pow(256, (s.len() - 1) as nat);
        lemma_be_val_bound(s.drop_last());
        assert(v * 256 + s.last() < p * 256) by (nonlinear_arith)
            requires
                v < p,
                s.last() < 256,
        ;
        assert(pow(256, s.len()) == 256 * p);
    }
}

/// Encoding then decoding gives the value back, for values that fit.
pub proof fn lemma_be_roundtrip(x: nat, n: nat)
    requires
        x < pow(256, n),
    ensures
        be_val(be_bytes(x, n)) == x,
    decreases n,
{
    reveal(pow);
    if n == 0 {
    } else {
        let a = be_bytes(x / 256, (n - 1) as nat);
        let m = (x % 256) as u8;
        lemma_be_bytes_len(x / 256, (n - 1) as nat);
        assert(a.push(m).drop_last() =~= a);
        assert(a.push(m).last() == m);
        assert(x / 256 < pow(256, (n - 1) as nat)) by (nonlinear_arith)
            requires
                x < pow(256, n),
                pow(256, n) == 256 * pow(256, (n - 1) as nat),
        ;
        lemma_be_roundtrip(x / 256, (n - 1) as nat);
        lemma_fundamental_div_mod(x as int, 256);
    }
}

/// Appends the `n`-byte big-endian encoding of `x` to `out`.
pub fn push_be(out: &mut Vec<u8>, x: u128, n: usize)
    ensures
        final(out)@ == old(out)@ + be_bytes(x as nat, n as nat),
    decreases n,
{
    if n == 0 {
        assert(out@ =~= old(out)@ + be_bytes(x as nat, 0));
    } else {
        push_be(out, x / 256, n - 1);
        out.push((x % 256) as u8);
        assert(out@ =~= old(out)@ + be_bytes(x as nat, n as nat));
    }
}

/// Reads the `n` bytes of `buf` starting at `start` as a big-endian value.
pub fn read_be(buf: &[u8], start: usize, n: usize) -> (r: u128)
    requires
        n <= 16,
        start + n <= buf@.len(),
    ensures
        r as nat == be_val(buf@.subrange(start as int, start as int + n as int)),
{
    let blen: usize = buf.len();
    let mut r: u128 = 0;
    let mut i: usize = 0;
    proof {
        reveal(pow);
        assert(buf@.subrange(start as int, start as int) =~= Seq::<u8>::empty());
    }
    while i < n
        invariant
            n <= 16,
            start + n <= blen,
            blen == buf@.len(),
            i <= n,
            r as nat == be_val(buf@.subrange(start as int, start as int + i as int)),
        decreases n - i,
    {
        let b = *slice_index_get(buf, start + i);
        proof {
            reveal(pow);
            let whole = buf@.subrange(start as int, start as int + i as int + 1);
            assert(whole.drop_last() =~= buf@.subrange(start as int, start as int + i as int));
            assert(whole.last() == b);
            lemma_be_val_bound(whole.drop_last());
            lemma_pow_increases(256, i as nat, 15);
            assert(pow(256, 15) * 256 == pow(256, 16));
            lemma_pow256_16();
            assert(r * 256 + b < 0x100000000000000000000000000000000) by (nonlinear_arith)
                requires
                    r < pow(256, 15),
                    b < 256,
                    pow(256, 15) * 256 == 0x100000000000000000000000000000000,
            ;
        }
        r = r * 256 + (b as u128);
        i += 1;
    }
    r
}

} // verus!
