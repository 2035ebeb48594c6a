//! Entropy source: cryptographically random integers of an exact bit length.
//! The raw bytes come from the operating system's secure generator; the
//! masking that pins the bit length is verified.

use vstd::prelude::*;
use vstd::pervasive::VecAdditionalExecFns;
use vstd::arithmetic::power2::pow2;
use num_bigint::BigUint;
use rand::RngCore;
use crate::arith::{be_val, bits_of, lemma_bits_of_bounds};
use crate::bignum::{big_from_bytes_be, big_val};

verus! {

/// Relies on rand's `OsRng::fill_bytes`: fills the whole buffer with bytes
/// from the operating system's secure entropy source. Nothing is assumed of
/// the values; only the length is unchanged. The call aborts the process if
/// the entropy source itself fails - an environmental fault, independent of
/// the input.
#[verifier::external_body]
pub(crate) fn fill_random_bytes(buf: &mut Vec<u8>)
    ensures
        final(buf)@.len() == old(buf)@.len(),
{
    rand::rngs::OsRng.fill_bytes(buf.as_mut_slice());
}

/// A big-endian byte string is below `2^(8 * len)`.
proof fn lemma_be_val_bound(s: Seq<u8>)
    ensures
        be_val(s) < pow2(8 * s.len()),
    decreases s.len(),
{
    if s.len() == 0 {
        assert(pow2(0) == 1) by {
            vstd::arithmetic::power2::lemma2_to64();
        }
    } else {
        lemma_be_val_bound(s.drop_last());
        let p = pow2(8 * (s.len() - 1) as nat);
        vstd::arithmetic::power2::lemma_pow2_adds(8 * (s.len() - 1) as nat, 8);
        assert(pow2(8) == 256) by {
            vstd::arithmetic::power2::lemma2_to64();
        }
        assert(be_val(s.drop_last()) * 256 + s.last() < p * 256) by (nonlinear_arith)
            requires
                be_val(s.drop_last()) < p,
                s.last() < 256,
        ;
    }
}

/// Splitting a big-endian byte string at its first byte.
proof fn lemma_be_val_first(s: Seq<u8>)
    requires
        s.len() >= 1,
    ensures
        be_val(s) == s.first() * pow2(8 * (s.len() - 1) as nat) + be_val(s.drop_first()),
    decreases s.len(),
{
    if s.len() == 1 {
        assert(s.drop_last() =~= Seq::<u8>::empty());
        assert(s.drop_first() =~= Seq::<u8>::empty());
        assert(pow2(0) == 1) by {
            vstd::arithmetic::power2::lemma2_to64();
        }
        assert(s.first() == s.last());
        assert(s.first() * 1 == s.first()) by (nonlinear_arith);
    } else {
        let dl = s.drop_last();
        lemma_be_val_first(dl);
        assert(dl.first() == s.first());
        assert(dl.drop_first() =~= s.drop_first().drop_last());
        let p = pow2(8 * (dl.len() - 1) as nat);
        vstd::arithmetic::power2::lemma_pow2_adds(8 * (dl.len() - 1) as nat, 8);
        assert(pow2(8) == 256) by {
            vstd::arithmetic::power2::lemma2_to64();
        }
        // be_val(s) = (first * p + rest') * 256 + last
        //           = first * (p * 256) + (rest' * 256 + last)
        assert((s.first() * p + be_val(dl.drop_first())) * 256 + s.last() == s.first() * (p * 256)
            + (be_val(dl.drop_first()) * 256 + s.last())) by (nonlinear_arith);
        assert(be_val(s.drop_first()) == be_val(s.drop_first().drop_last()) * 256 + s.last()) by {
            assert(s.drop_first().last() == s.last());
        }
    }
}

/// Generates a cryptographically secure random value with exactly `bits`
/// significant bits: the top bit is forced to one and the excess high bits
/// of the leading byte are masked off.
pub fn generate_entropy(bits: u32) -> (r: BigUint)
    requires
        bits >= 2,
    ensures
        bits_of(big_val(r)) == bits as nat,
{
    let byte_len: usize = (bits / 8) as usize + (if bits % 8 == 0 {
        0usize
    } else {
        1usize
    });
    let mut buffer: Vec<u8> = Vec::new();
    let mut i: usize = 0;
    while i < byte_len
        invariant
            buffer@.len() == i,
            i <= byte_len,
        decreases byte_len - i,
    {
        buffer.push(0u8);
        i = i + 1;
    }
    fill_random_bytes(&mut buffer);

    let excess: u32 = (8 - bits % 8) % 8;
    let shift: u32 = 7 - excess;
    let first = buffer[0];
    let masked: u8 = (first & (0xffu8 >> excess)) | (1u8 << shift);
    buffer.set(0, masked);

    proof {
        let e = excess;
        let m = masked;
        assert((e == 0 ==> m >= 128) && (e == 1 ==> 64 <= m < 128) && (e == 2 ==> 32 <= m < 64) && (
        e == 3 ==> 16 <= m < 32) && (e == 4 ==> 8 <= m < 16) && (e == 5 ==> 4 <= m < 8) && (e == 6
            ==> 2 <= m < 4) && (e == 7 ==> 1 <= m < 2)) by (bit_vector)
            requires
                m == (first & (0xffu8 >> e)) | (1u8 << shift),
                e <= 7,
                e + shift == 7,
        ;
        vstd::arithmetic::power2::lemma2_to64();
        assert(pow2((7 - e) as nat) <= m < pow2((8 - e) as nat));

        let s = buffer@;
        let tail_bits = (8 * (byte_len - 1)) as nat;
        lemma_be_val_first(s);
        lemma_be_val_bound(s.drop_first());
        assert(s.first() == masked);
        // Lower bound: the forced top bit alone reaches 2^(bits - 1).
        vstd::arithmetic::power2::lemma_pow2_adds((7 - e) as nat, tail_bits);
        assert((bits - 1) as nat == (7 - e) as nat + tail_bits);
        assert(be_val(s) >= pow2((7 - e) as nat) * pow2(tail_bits)) by (nonlinear_arith)
            requires
                be_val(s) == masked * pow2(tail_bits) + be_val(s.drop_first()),
                masked >= pow2((7 - e) as nat),
        ;
        // Upper bound: the masked leading byte keeps the value below 2^bits.
        vstd::arithmetic::power2::lemma_pow2_adds((8 - e) as nat, tail_bits);
        assert(bits as nat == (8 - e) as nat + tail_bits);
        assert(be_val(s) < pow2((8 - e) as nat) * pow2(tail_bits)) by (nonlinear_arith)
            requires
                be_val(s) == masked * pow2(tail_bits) + be_val(s.drop_first()),
                be_val(s.drop_first()) < pow2(tail_bits),
                masked < pow2((8 - e) as nat),
        ;
        lemma_bits_of_bounds(be_val(s), bits as nat);
    }

    big_from_bytes_be(buffer.as_slice())
}

} // verus!
