//! Candidate generator: draws an entropy-backed window base of the target
//! bit length, presieves the window against small primes in the spirit of
//! the wheel (a filter, not a primality proof), and hands the survivors to
//! the primality tester, within the dynamic attempt budget. The presieve
//! only ever skips candidates, so nothing returned rests on it: every
//! accepted value is endorsed by the tester alone.

use vstd::prelude::*;
use vstd::pervasive::VecAdditionalExecFns;
use num_bigint::BigUint;
use crate::arith::bits_of;
use crate::attempts::calculate_max_attempts;
use crate::bignum::{big_add, big_bits, big_from_u64, big_is_odd, big_to_u64_digits, big_val};
use crate::entropy::generate_entropy;
use crate::primality::{
    is_probable_prime, mr_witness_passes, no_small_table_factor, passes_deterministic_witnesses,
    DETERMINISTIC_THRESHOLD, RANDOM_WITNESS_ROUNDS,
};
use crate::types::GenError;

verus! {

/// What holds of every value the generator accepts: exactly the requested
/// bit length, odd (or the prime two), and a Miller-Rabin endorsement -
/// below the deterministic threshold by the full fixed witness set, above it
/// by freedom from every trial-division table prime together with a round of
/// random witnesses drawn from `[2, v - 2]`, each of which the value passed.
pub open spec fn accepted_prime(v: nat, b: nat) -> bool {
    &&& bits_of(v) == b
    &&& (v == 2 || v % 2 == 1)
    &&& (3 <= v < DETERMINISTIC_THRESHOLD ==> passes_deterministic_witnesses(v))
    &&& (v >= DETERMINISTIC_THRESHOLD ==> no_small_table_factor(v))
    &&& (v >= DETERMINISTIC_THRESHOLD ==> exists|ws: Seq<nat>|
        (#[trigger] ws.len()) == RANDOM_WITNESS_ROUNDS && forall|k: int|
            0 <= k < ws.len() ==> 2 <= #[trigger] ws[k] <= v - 2 && mr_witness_passes(v, ws[k]))
}

/// Number of odd offsets each presieved window covers.
const SIEVE_WINDOW: u64 = 2048;

/// Upper bound on the presieve primes.
const SIEVE_LIMIT: u32 = 1048576;

/// All odd primes below `limit`, ascending, by the sieve of Eratosthenes.
/// Only the bounds are stated: the callers use the entries to skip
/// candidates, never to accept one.
fn small_odd_primes(limit: u32) -> (r: Vec<u64>)
    ensures
        forall|k: int| 0 <= k < r@.len() ==> 3 <= #[trigger] r@[k] < 0x1_0000_0000u64,
{
    let lim: usize = limit as usize;
    let mut is_composite: Vec<bool> = Vec::new();
    let mut i: usize = 0;
    while i < lim
        invariant
            is_composite@.len() == i,
            i <= lim,
        decreases lim - i,
    {
        is_composite.push(false);
        i = i + 1;
    }

    let mut primes: Vec<u64> = Vec::new();
    let mut n: u64 = 3;
    while n < limit as u64
        invariant
            n >= 3,
            lim == limit as usize,
            is_composite@.len() == lim,
            forall|k: int| 0 <= k < primes@.len() ==> 3 <= #[trigger] primes@[k]
                < 0x1_0000_0000u64,
        decreases limit as u64 + 2 - n,
    {
        if !is_composite[n as usize] {
            primes.push(n);
            proof {
                assert(n * n < 0x1_0000_0000_0000_0000) by (nonlinear_arith)
                    requires
                        n < 0x1_0000_0000u64,
                ;
            }
            let mut j: u64 = n * n;
            while j < limit as u64
                invariant
                    3 <= n < 0x1_0000_0000u64,
                    lim == limit as usize,
                    is_composite@.len() == lim,
                decreases limit as u64 + 2 * n - j,
            {
                is_composite.set(j as usize, true);
                j = j + 2 * n;
            }
        }
        n = n + 2;
    }
    primes
}

/// The digit string reduced by a small odd modulus, folding 64-bit digits
/// from the most significant end. The result only decides which offsets the
/// presieve skips, so it carries no value-level contract.
fn digits_mod_small(digits: &Vec<u64>, p: u64) -> (r: u64)
    requires
        3 <= p < 0x1_0000_0000,
    ensures
        r < p,
{
    let m32: u64 = (1u64 << 32u64) % p;
    proof {
        assert(m32 * m32 < 0x1_0000_0000_0000_0000) by (nonlinear_arith)
            requires
                m32 < 0x1_0000_0000u64,
        ;
    }
    let m64: u64 = (m32 * m32) % p;
    let mut r: u64 = 0;
    let mut i: usize = digits.len();
    while i > 0
        invariant
            r < p,
            3 <= p < 0x1_0000_0000,
            m64 < p,
            i <= digits@.len(),
        decreases i,
    {
        i = i - 1;
        let d = digits[i];
        proof {
            assert(r * m64 + d % p < 0xFFFF_FFFF_FFFF_FFFFu64) by (nonlinear_arith)
                requires
                    r < p,
                    m64 < p,
                    p < 0x1_0000_0000u64,
        ;
        }
        r = (r * m64 + d % p) % p;
    }
    r
}

pub struct PrimeGenerator;

impl PrimeGenerator {
    pub fn new() -> (r: Self) {
        PrimeGenerator
    }

    /// One generation request, as the sampling-testing cycle: draw an
    /// entropy-backed window base of the target bit length, skip the offsets
    /// the small-prime presieve marks, and run the primality tester on the
    /// rest, retrying with a fresh window until a candidate is accepted or
    /// the attempt budget is exhausted. Drawing a window costs one attempt
    /// and each tested candidate costs another.
    fn generate_candidate(bit_length: u32, budget: u32) -> (r: Result<(BigUint, u32), GenError>)
        requires
            bit_length >= 2,
        ensures
            r matches Ok(p) ==> accepted_prime(big_val(p.0), bit_length as nat) && 1 <= p.1
                <= budget,
            r is Err ==> r == Err::<(BigUint, u32), GenError>(GenError::AttemptBudgetExhausted),
    {
        let one = big_from_u64(1);
        let primes = small_odd_primes(SIEVE_LIMIT);
        // Marking primes stay below the square root of every candidate of
        // this bit length, so a marked offset always has a proper divisor:
        // the presieve never hides a prime.
        let shift: u32 = (bit_length - 1) / 2;
        let prime_cap: u64 = if shift >= 20 {
            SIEVE_LIMIT as u64
        } else {
            1u64 << shift
        };

        let mut attempts: u32 = 0;
        while attempts < budget
            invariant
                attempts <= budget,
                bit_length >= 2,
                big_val(one) == 1,
                forall|k: int| 0 <= k < primes@.len() ==> 3 <= #[trigger] primes@[k]
                    < 0x1_0000_0000u64,
            decreases budget - attempts,
        {
            attempts = attempts + 1;
            let ghost window_base_attempts = attempts;
            let mut start = generate_entropy(bit_length);
            if !big_is_odd(&start) {
                start = big_add(&start, &one);
            }
            let digits = big_to_u64_digits(&start);

            let mut marked: Vec<bool> = Vec::new();
            let mut w: usize = 0;
            while w < SIEVE_WINDOW as usize
                invariant
                    marked@.len() == w,
                    w <= SIEVE_WINDOW as usize,
                decreases SIEVE_WINDOW as usize - w,
            {
                marked.push(false);
                w = w + 1;
            }

            let mut t: usize = 0;
            while t < primes.len()
                invariant
                    marked@.len() == SIEVE_WINDOW as usize,
                    t <= primes@.len(),
                    forall|k: int| 0 <= k < primes@.len() ==> 3 <= #[trigger] primes@[k]
                        < 0x1_0000_0000u64,
                decreases primes@.len() - t,
            {
                let p = primes[t];
                if p <= prime_cap {
                    let r0 = digits_mod_small(&digits, p);
                    // First offset j with start + 2 j divisible by p:
                    // j = (p - r0) * inverse_of_two modulo the odd p.
                    let two_inv = p / 2 + 1;
                    proof {
                        assert(((p - r0) as int % p as int) * (two_inv as int)
                            < 0xFFFF_FFFF_FFFF_FFFF) by (nonlinear_arith)
                            requires
                                r0 < p,
                                p < 0x1_0000_0000u64,
                                two_inv == p / 2 + 1,
                        ;
                    }
                    let mut j: u64 = ((p - r0) % p) * two_inv % p;
                    while j < SIEVE_WINDOW
                        invariant
                            marked@.len() == SIEVE_WINDOW as usize,
                            p >= 3,
                            p < 0x1_0000_0000u64,
                        decreases SIEVE_WINDOW + p - j,
                    {
                        marked.set(j as usize, true);
                        j = j + p;
                    }
                }
                t = t + 1;
            }

            let mut j: usize = 0;
            while j < SIEVE_WINDOW as usize
                invariant
                    marked@.len() == SIEVE_WINDOW as usize,
                    j <= SIEVE_WINDOW as usize,
                    window_base_attempts <= attempts <= budget,
                    bit_length >= 2,
                decreases SIEVE_WINDOW as usize - j,
            {
                if !marked[j] {
                    if attempts >= budget {
                        return Err(GenError::AttemptBudgetExhausted);
                    }
                    attempts = attempts + 1;
                    let off = big_from_u64((2 * j) as u64);
                    let candidate = big_add(&start, &off);
                    if big_bits(&candidate) == bit_length as u64 {
                        if is_probable_prime(&candidate) {
                            return Ok((candidate, attempts));
                        }
                    }
                }
                j = j + 1;
            }
        }
        Err(GenError::AttemptBudgetExhausted)
    }

    /// Generates `count` primes of the target bit length for a multi-prime
    /// RSA-style strategy.
    pub fn generate_rsa_multi_primes(&mut self, count: u32, bit_length: u32) -> (r: Result<
        Vec<BigUint>,
        GenError,
    >)
        requires
            2 <= bit_length <= 4096,
        ensures
            r matches Ok(v) ==> v@.len() == count as nat && forall|k: int|
                0 <= k < v@.len() ==> accepted_prime(big_val(#[trigger] v@[k]), bit_length as nat),
            r is Err ==> r == Err::<Vec<BigUint>, GenError>(GenError::AttemptBudgetExhausted),
    {
        let budget = calculate_max_attempts(bit_length);
        let mut primes: Vec<BigUint> = Vec::new();
        let mut made: u32 = 0;
        while made < count
            invariant
                made <= count,
                2 <= bit_length <= 4096,
                primes@.len() == made as nat,
                forall|k: int|
                    0 <= k < primes@.len() ==> accepted_prime(
                        big_val(#[trigger] primes@[k]),
                        bit_length as nat,
                    ),
            decreases count - made,
        {
            match Self::generate_candidate(bit_length, budget) {
                Ok(p) => {
                    primes.push(p.0);
                },
                Err(e) => {
                    return Err(e);
                },
            }
            made = made + 1;
        }
        Ok(primes)
    }

    /// Generates one prime of the target bit length for the strong-prime
    /// strategy, reporting the number of attempts consumed.
    pub fn generate_strong_prime(&mut self, bit_length: u32, attempts: &mut u32) -> (r: Result<
        BigUint,
        GenError,
    >)
        requires
            2 <= bit_length <= 4096,
        ensures
            r matches Ok(p) ==> accepted_prime(big_val(p), bit_length as nat) && 1 <= *final(attempts),
            r is Err ==> r == Err::<BigUint, GenError>(GenError::AttemptBudgetExhausted),
    {
        let budget = calculate_max_attempts(bit_length);
        match Self::generate_candidate(bit_length, budget) {
            Ok(p) => {
                *attempts = p.1;
                Ok(p.0)
            },
            Err(e) => {
                *attempts = budget;
                Err(e)
            },
        }
    }
}

} // verus!
