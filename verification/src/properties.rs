//! Property reporter: pairwise gaps, running product, per-prime bit lengths,
//! strategy relationship tags, and a strength label from the summed bit
//! length. A pure function of the prime set and the strategy.

use vstd::prelude::*;
use num_bigint::BigUint;
use crate::arith::{bits_of, dec_str_of, dist_nat};
use crate::bignum::{big_bits, big_from_u64, big_lt, big_mul, big_sub, big_to_string, big_val};
use crate::types::PrimeProperties;

verus! {

/// The mathematical values a list of big integers holds.
pub open spec fn values_of(s: Seq<BigUint>) -> Seq<nat> {
    s.map_values(|p: BigUint| big_val(p))
}

/// Product of a list of values (one for the empty list).
pub open spec fn prod_of(s: Seq<nat>) -> nat
    decreases s.len(),
{
    if s.len() == 0 {
        1
    } else {
        prod_of(s.drop_last()) * s.last()
    }
}

/// Sum of the bit lengths of a list of values.
pub open spec fn sum_bits(s: Seq<nat>) -> nat
    decreases s.len(),
{
    if s.len() == 0 {
        0
    } else {
        sum_bits(s.drop_last()) + bits_of(s.last())
    }
}

/// The relationship tags for a strategy and a prime count.
pub open spec fn relationships_spec(strategy: Seq<char>, count: nat) -> Seq<Seq<char>> {
    if strategy == "rsa-multi"@ {
        if count > 2 {
            seq!["rsa-suitable"@, "multi-prime"@]
        } else {
            seq!["rsa-suitable"@]
        }
    } else if strategy == "strong"@ {
        seq!["strong-prime"@, "safe-prime"@]
    } else {
        Seq::empty()
    }
}

/// The strength label for a total bit length.
pub open spec fn strength_spec(total: nat) -> Seq<char> {
    if total <= 1023 {
        "weak"@
    } else if total <= 2047 {
        "legacy"@
    } else if total <= 3071 {
        "standard"@
    } else if total <= 4095 {
        "strong"@
    } else {
        "ultra-strong"@
    }
}

/// String slice equality over the character views.
pub(crate) fn str_eq(a: &str, b: &str) -> (r: bool)
    ensures
        r == (a@ == b@),
{
    let sa: String = a.to_owned();
    let sb: String = b.to_owned();
    sa == sb
}

/// A prefix sum of bit lengths is at most the whole sum.
proof fn lemma_sum_bits_take_le(s: Seq<nat>, i: int)
    requires
        0 <= i <= s.len(),
    ensures
        sum_bits(s.take(i)) <= sum_bits(s),
    decreases s.len() - i,
{
    if i == s.len() {
        assert(s.take(i) =~= s);
    } else {
        assert(s.take(i + 1).drop_last() =~= s.take(i));
        assert(s.take(i + 1).last() == s[i]);
        lemma_sum_bits_take_le(s, i + 1);
    }
}

/// Computes the descriptive properties of a prime set: consecutive absolute
/// gaps, the running product, each prime's bit length, the strategy tags,
/// and the strength classification of the summed bit length.
pub fn calculate_prime_properties(primes: &Vec<BigUint>, strategy: &str) -> (r: PrimeProperties)
    requires
        forall|k: int| 0 <= k < primes@.len() ==> bits_of(big_val(#[trigger] primes@[k]))
            <= u32::MAX,
        sum_bits(values_of(primes@)) <= u64::MAX,
    ensures
        ({
            let vals = values_of(primes@);
            &&& r.bit_lengths@.len() == vals.len()
            &&& forall|k: int| 0 <= k < vals.len() ==> #[trigger] r.bit_lengths@[k] as nat
                == bits_of(vals[k])
            &&& r.gaps@.len() == (if vals.len() == 0 { 0int } else { vals.len() - 1 })
            &&& forall|k: int| 0 <= k < r.gaps@.len() ==> (#[trigger] r.gaps@[k])@ == dec_str_of(
                dist_nat(vals[k + 1], vals[k]),
            )
            &&& r.product@ == dec_str_of(prod_of(vals))
            &&& r.relationships@.map_values(|t: String| t@) == relationships_spec(
                strategy@,
                vals.len(),
            )
            &&& r.strength@ == strength_spec(sum_bits(vals))
        }),
{
    let ghost vals = values_of(primes@);
    let mut gaps: Vec<String> = Vec::new();
    let mut bit_lengths: Vec<u32> = Vec::new();
    let mut product = big_from_u64(1);
    let mut total_bits: u64 = 0;

    let mut i: usize = 0;
    while i < primes.len()
        invariant
            i <= primes@.len(),
            vals == values_of(primes@),
            vals.len() == primes@.len(),
            forall|k: int| 0 <= k < primes@.len() ==> bits_of(big_val(#[trigger] primes@[k]))
                <= u32::MAX,
            sum_bits(vals) <= u64::MAX,
            bit_lengths@.len() == i,
            forall|k: int| 0 <= k < i ==> #[trigger] bit_lengths@[k] as nat == bits_of(vals[k]),
            gaps@.len() == (if i == 0 { 0int } else { i - 1 }),
            forall|k: int| 0 <= k < gaps@.len() ==> (#[trigger] gaps@[k])@ == dec_str_of(
                dist_nat(vals[k + 1], vals[k]),
            ),
            big_val(product) == prod_of(vals.take(i as int)),
            total_bits as nat == sum_bits(vals.take(i as int)),
        decreases primes@.len() - i,
    {
        proof {
            assert(vals.take(i + 1).drop_last() =~= vals.take(i as int));
            assert(vals.take(i + 1).last() == vals[i as int]);
            lemma_sum_bits_take_le(vals, i + 1);
        }
        let b = big_bits(&primes[i]);
        bit_lengths.push(b as u32);
        total_bits = total_bits + b;
        product = big_mul(&product, &primes[i]);

        if i > 0 {
            let gap = if big_lt(&primes[i - 1], &primes[i]) {
                big_sub(&primes[i], &primes[i - 1])
            } else {
                big_sub(&primes[i - 1], &primes[i])
            };
            gaps.push(big_to_string(&gap));
        }
        i = i + 1;
    }
    proof {
        assert(vals.take(vals.len() as int) =~= vals);
    }

    let mut relationships: Vec<String> = Vec::new();
    if str_eq(strategy, "rsa-multi") {
        relationships.push("rsa-suitable".to_owned());
        if primes.len() > 2 {
            relationships.push("multi-prime".to_owned());
        }
    } else if str_eq(strategy, "strong") {
        relationships.push("strong-prime".to_owned());
        relationships.push("safe-prime".to_owned());
    }
    proof {
        assert(relationships@.map_values(|t: String| t@) =~= relationships_spec(
            strategy@,
            vals.len(),
        ));
    }

    let strength: String = if total_bits <= 1023 {
        "weak".to_owned()
    } else if total_bits <= 2047 {
        "legacy".to_owned()
    } else if total_bits <= 3071 {
        "standard".to_owned()
    } else if total_bits <= 4095 {
        "strong".to_owned()
    } else {
        "ultra-strong".to_owned()
    };

    let product_str = big_to_string(&product);
    PrimeProperties { gaps, product: product_str, bit_lengths, relationships, strength }
}

} // verus!
