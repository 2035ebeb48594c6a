//! Boundary entry point: validates a generation request, runs the selected
//! strategy, and assembles the response with its properties and metadata.
//! The host measures wall-clock time itself; `generation_time` is left zero
//! here for it to fill.

use vstd::prelude::*;
use num_bigint::BigUint;
use crate::arith::{bits_of, dec_str_of, dist_nat};
use crate::bignum::{big_to_string, big_val};
use crate::generators::{accepted_prime, PrimeGenerator};
use crate::properties::{
    calculate_prime_properties, prod_of, relationships_spec, str_eq, strength_spec, sum_bits,
    values_of,
};
use crate::types::{GenError, GenerationMetadata, PrimeSetResult};

verus! {

/// The validation verdict of a request, checked in order: bit length in
/// `[16, 4096]`, count in `[1, 10]`, a known strategy, and a count of one
/// for the strong strategy.
pub open spec fn request_error_spec(count: u32, bit_length: u32, strategy: Seq<char>) -> Option<
    GenError,
> {
    if bit_length < 16 || bit_length > 4096 {
        Some(GenError::InvalidBitLength)
    } else if count == 0 || count > 10 {
        Some(GenError::InvalidCount)
    } else if strategy != "rsa-multi"@ && strategy != "strong"@ {
        Some(GenError::UnknownStrategy)
    } else if strategy == "strong"@ && count != 1 {
        Some(GenError::StrategyCountMismatch)
    } else {
        None
    }
}

/// The response fields are exactly what the value list `vals` dictates:
/// accepted primes of the requested bit length, their decimal strings, and
/// the reporter's statistics over them.
pub open spec fn result_describes(
    res: PrimeSetResult,
    vals: Seq<nat>,
    bit_length: u32,
    strategy: Seq<char>,
) -> bool {
    &&& res.primes@.len() == vals.len()
    &&& forall|k: int| 0 <= k < vals.len() ==> accepted_prime(#[trigger] vals[k], bit_length as nat)
    &&& forall|k: int| 0 <= k < vals.len() ==> (#[trigger] res.primes@[k])@ == dec_str_of(vals[k])
    &&& res.properties.bit_lengths@.len() == vals.len()
    &&& forall|k: int| 0 <= k < vals.len() ==> #[trigger] res.properties.bit_lengths@[k] as nat
        == bits_of(vals[k])
    &&& res.properties.gaps@.len() == (if vals.len() == 0 { 0int } else { vals.len() - 1 })
    &&& forall|k: int| 0 <= k < res.properties.gaps@.len()
        ==> (#[trigger] res.properties.gaps@[k])@ == dec_str_of(dist_nat(vals[k + 1], vals[k]))
    &&& res.properties.product@ == dec_str_of(prod_of(vals))
    &&& res.properties.relationships@.map_values(|t: String| t@) == relationships_spec(
        strategy,
        vals.len(),
    )
    &&& res.properties.strength@ == strength_spec(sum_bits(vals))
}

/// Bit lengths bounded by `b` sum to at most `len * b`.
proof fn lemma_sum_bits_bound(s: Seq<nat>, b: nat)
    requires
        forall|k: int| 0 <= k < s.len() ==> bits_of(#[trigger] s[k]) <= b,
    ensures
        sum_bits(s) <= s.len() * b,
    decreases s.len(),
{
    if s.len() == 0 {
    } else {
        lemma_sum_bits_bound(s.drop_last(), b);
        assert((s.len() - 1) * b + b == s.len() * b) by (nonlinear_arith);
    }
}

/// Validates and serves one generation request.
pub fn generate_prime_set(count: u32, bit_length: u32, strategy: &str) -> (r: Result<
    PrimeSetResult,
    GenError,
>)
    ensures
        request_error_spec(count, bit_length, strategy@) matches Some(e) ==> r == Err::<
            PrimeSetResult,
            GenError,
        >(e),
        request_error_spec(count, bit_length, strategy@) is None ==> (r matches Err(e) ==> e
            == GenError::AttemptBudgetExhausted),
        request_error_spec(count, bit_length, strategy@) is None ==> (r matches Ok(res) ==> {
            &&& res.primes@.len() == count as nat
            &&& exists|vals: Seq<nat>|
                #[trigger] vals.len() == count as nat && result_describes(
                    res,
                    vals,
                    bit_length,
                    strategy@,
                )
            &&& res.metadata.strategy@ == strategy@
            &&& res.metadata.attempts >= 1
            &&& res.metadata.generation_time == 0
        }),
{
    if bit_length < 16 || bit_length > 4096 {
        return Err(GenError::InvalidBitLength);
    }
    if count == 0 || count > 10 {
        return Err(GenError::InvalidCount);
    }
    let is_rsa = str_eq(strategy, "rsa-multi");
    let is_strong = str_eq(strategy, "strong");
    if !is_rsa && !is_strong {
        return Err(GenError::UnknownStrategy);
    }
    if is_strong && count != 1 {
        return Err(GenError::StrategyCountMismatch);
    }

    let mut generator = PrimeGenerator::new();
    let mut attempts: u32 = 1;
    let primes: Vec<BigUint> = if is_rsa {
        match generator.generate_rsa_multi_primes(count, bit_length) {
            Ok(v) => v,
            Err(e) => {
                return Err(e);
            },
        }
    } else {
        match generator.generate_strong_prime(bit_length, &mut attempts) {
            Ok(p) => {
                let mut v: Vec<BigUint> = Vec::new();
                v.push(p);
                v
            },
            Err(e) => {
                return Err(e);
            },
        }
    };
    let ghost vals = values_of(primes@);

    proof {
        lemma_sum_bits_bound(vals, bit_length as nat);
        assert(vals.len() * bit_length as nat <= 10 * 4096) by (nonlinear_arith)
            requires
                vals.len() <= 10,
                bit_length <= 4096,
        ;
    }
    let properties = calculate_prime_properties(&primes, strategy);

    let mut prime_strings: Vec<String> = Vec::new();
    let mut i: usize = 0;
    while i < primes.len()
        invariant
            i <= primes@.len(),
            vals == values_of(primes@),
            prime_strings@.len() == i,
            forall|k: int| 0 <= k < i ==> (#[trigger] prime_strings@[k])@ == dec_str_of(vals[k]),
        decreases primes@.len() - i,
    {
        prime_strings.push(big_to_string(&primes[i]));
        i = i + 1;
    }

    let result = PrimeSetResult {
        primes: prime_strings,
        properties,
        metadata: GenerationMetadata {
            attempts,
            generation_time: 0,
            strategy: strategy.to_owned(),
        },
    };
    proof {
        assert(vals.len() == count as nat);
        assert(result_describes(result, vals, bit_length, strategy@));
    }
    Ok(result)
}

} // verus!
