//! Big-endian byte strings for 128-bit magnitudes.
//!
//! A magnitude's canonical wire form is 16 bytes, most significant first:
//! the high 64 bits as 8 big-endian bytes, then the low 64 bits. The byte
//! work itself is done by the `byteorder` crate; the two wrappers below
//! state what it reads and writes.

use vstd::prelude::*;
use byteorder::ByteOrder;

verus! {

/// The magnitude that the byte string `s` denotes, most significant byte
/// first.
pub open spec fn be_val(s: Seq<u8>) -> nat
    decreases s.len(),
{
    if s.len() == 0 {
        0
    } else {
        (be_val(s.drop_last()) * 256 + s.last()) as nat
    }
}

/// The `len` low-order bytes of `n`, most significant first.
pub open spec fn be_bytes(n: nat, len: nat) -> Seq<u8>
    decreases len,
{
    if len == 0 {
        Seq::empty()
    } else {
        be_bytes(n / 256, (len - 1) as nat).push((n % 256) as u8)
    }
}

/// A magnitude's byte string always has exactly `len` bytes.
pub proof fn lemma_be_bytes_len(n: nat, len: nat)
    ensures
        be_bytes(n, len).len() == len,
    decreases len,
{
    if len > 0 {
        lemma_be_bytes_len(n / 256, (len - 1) as nat);
    }
}

/// Reading back the byte string of `n` recovers `n` modulo `256^len`.
pub proof fn lemma_be_val_be_bytes(n: nat, len: nat)
    ensures
        be_val(be_bytes(n, len)) == n as int % vstd::arithmetic::power::pow(256, len),
    decreases len,
{
    reveal(vstd::arithmetic::power::pow);
    if len == 0 {
        assert(n as int % 1 == 0);
    } else {
        let p = vstd::arithmetic::power::pow(256, (len - 1) as nat);
        vstd::arithmetic::power::lemma_pow_positive(256, (len - 1) as nat);
        lemma_be_val_be_bytes(n / 256, (len - 1) as nat);
        let s = be_bytes(n, len);
        assert(s.drop_last() == be_bytes(n / 256, (len - 1) as nat));
        assert(s.last() == (n % 256) as u8);
        vstd::arithmetic::div_mod::lemma_mod_breakdown(n as int, 256, p);
        assert(vstd::arithmetic::power::pow(256, len) == 256 * p);
        vstd::arithmetic::mul::lemma_mul_is_commutative(256, ((n as int / 256) % p));
    }
}

/// A concatenation of byte strings denotes the left part shifted past the
/// right part, plus the right part.
pub proof fn lemma_be_val_concat(a: Seq<u8>, b: Seq<u8>)
    ensures
        be_val(a + b) == be_val(a) * vstd::arithmetic::power::pow(256, b.len()) + be_val(b),
    decreases b.len(),
{
    reveal(vstd::arithmetic::power::pow);
    if b.len() == 0 {
        assert(a + b =~= a);
    } else {
        lemma_be_val_concat(a, b.drop_last());
        assert((a + b).drop_last() =~= a + b.drop_last());
        assert((a + b).last() == b.last());
        let p = vstd::arithmetic::power::pow(256, (b.len() - 1) as nat);
        assert(be_val(a + b) == (be_val(a) * p + be_val(b.drop_last())) * 256 + b.last());
        assert((be_val(a) * p + be_val(b.drop_last())) * 256 == be_val(a) * p * 256 + be_val(
            b.drop_last(),
        ) * 256) by (nonlinear_arith);
        assert(be_val(a) * p * 256 == be_val(a) * (p * 256)) by (nonlinear_arith);
        assert(vstd::arithmetic::power::pow(256, b.len()) == 256 * p);
        assert(be_val(b) == be_val(b.drop_last()) * 256 + b.last());
        assert(be_val(a) * (p * 256) == be_val(a) * (256 * p));
    }
}

/// Splitting a magnitude's byte string at the `cut` low-order bytes splits
/// the magnitude by `256^cut`.
pub proof fn lemma_be_bytes_split(n: nat, len: nat, cut: nat)
    requires
        cut <= len,
    ensures
        be_bytes(n, len) == be_bytes(
            n / vstd::arithmetic::power::pow(256, cut) as nat,
            (len - cut) as nat,
        ) + be_bytes(n % vstd::arithmetic::power::pow(256, cut) as nat, cut),
    decreases cut,
{
    reveal(vstd::arithmetic::power::pow);
    let p = vstd::arithmetic::power::pow(256, cut) as nat;
    if cut == 0 {
        assert(n as int % 1 == 0);
        assert(n as int / 1 == n);
        assert(be_bytes(n, len) =~= be_bytes(n, len) + be_bytes(n % 1, 0));
    } else {
        let plow = vstd::arithmetic::power::pow(256, (cut - 1) as nat) as nat;
        vstd::arithmetic::power::lemma_pow_positive(256, (cut - 1) as nat);
        lemma_be_bytes_split(n / 256, (len - 1) as nat, (cut - 1) as nat);
        vstd::arithmetic::div_mod::lemma_div_denominator(n as int, 256, plow as int);
        vstd::arithmetic::div_mod::lemma_mod_breakdown(n as int, 256, plow as int);
        vstd::arithmetic::mul::lemma_mul_is_commutative(256, ((n as int / 256) % plow as int));
        // the low `cut` bytes of `n` are the low `cut - 1` bytes of `n / 256`
        // with the lowest byte of `n` appended
        vstd::arithmetic::div_mod::lemma_fundamental_div_mod_converse(
            (n % p) as int,
            256,
            ((n / 256) % plow) as int,
            (n % 256) as int,
        );
        assert(be_bytes(n % p, cut).drop_last() == be_bytes((n / 256) % plow, (cut - 1) as nat));
        assert(be_bytes(n % p, cut) == be_bytes((n / 256) % plow, (cut - 1) as nat).push(
            (n % 256) as u8,
        ));
        assert(be_bytes(n / p, (len - cut) as nat) + be_bytes(n % p, cut) =~= (be_bytes(
            n / p,
            (len - cut) as nat,
        ) + be_bytes((n / 256) % plow, (cut - 1) as nat)).push((n % 256) as u8));
    }
}

/// Relies on byteorder's `BigEndian::read_u64`: reads the 8 bytes at `off`
/// as an unsigned integer, most significant byte first.
#[verifier::external_body]
pub(crate) fn read_u64_be(b: &[u8], off: usize) -> (r: u64)
    requires
        off + 8 <= b@.len(),
    ensures
        r as nat == be_val(b@.subrange(off as int, off as int + 8)),
{
    byteorder::BigEndian::read_u64(&b[off..off + 8])
}

/// Relies on byteorder's `BigEndian::write_u64`: writes `x` as 8 bytes,
/// most significant byte first.
#[verifier::external_body]
pub(crate) fn write_u64_be(x: u64) -> (r: Vec<u8>)
    ensures
        r@ == be_bytes(x as nat, 8),
{
    let mut buf = vec![0u8; 8];
    byteorder::BigEndian::write_u64(&mut buf, x);
    buf
}

} // verus!
