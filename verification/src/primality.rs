//! Primality tester: Miller-Rabin with the fixed deterministic witness set
//! for moduli below the deterministic-correctness threshold, and random
//! witnesses above it.

use vstd::prelude::*;
use vstd::arithmetic::power2::pow2;
use vstd::arithmetic::power::pow;
use num_bigint::BigUint;
use crate::arith::{odd_part, pow_nat};
use crate::bignum::{
    big_add, big_clone, big_eq, big_from_u64, big_is_odd, big_lt, big_modpow_accel, big_mul,
    big_rem, big_shr1, big_sub, big_val,
};
use crate::entropy::generate_entropy;

verus! {

/// Largest modulus for which the fixed witness set is known to give a
/// deterministic verdict.
pub const DETERMINISTIC_THRESHOLD: u64 = 341550071728321;

/// Rounds of random witnesses used above the deterministic threshold.
pub const RANDOM_WITNESS_ROUNDS: u32 = 8;

/// The fixed Miller-Rabin witnesses.
pub open spec fn witness_seq() -> Seq<u64> {
    seq![
        2u64,
        3u64,
        5u64,
        7u64,
        11u64,
        13u64,
        17u64,
        19u64,
        23u64,
        29u64,
        31u64,
        37u64,
        41u64,
        43u64,
        47u64,
    ]
}

/// The fixed Miller-Rabin witnesses, as values.
pub fn miller_rabin_witnesses() -> (r: Vec<u64>)
    ensures
        r@ == witness_seq(),
{
    let r = vec![
        2u64,
        3u64,
        5u64,
        7u64,
        11u64,
        13u64,
        17u64,
        19u64,
        23u64,
        29u64,
        31u64,
        37u64,
        41u64,
        43u64,
        47u64,
    ];
    proof {
        assert(r@ =~= witness_seq());
    }
    r
}

/// Witness `a` is consistent with `n` being prime: with `n - 1 == 2^s * d`
/// and `d` odd, either `a^d == 1 (mod n)`, or `a^(2^i * d) == n - 1 (mod n)`
/// for some `i` below `s`.
pub open spec fn mr_witness_passes(n: nat, a: nat) -> bool {
    let d = odd_part((n - 1) as nat);
    ||| pow_nat(a, d) % n == 1
    ||| exists|i: nat|
        pow_nat(2, i) * d <= (n - 1) / 2 && (#[trigger] pow_nat(a, pow_nat(2, i) * d)) % n == (n
            - 1) as nat
}

/// `n` passes every fixed witness that lies in `[2, n - 2]`.
pub open spec fn passes_deterministic_witnesses(n: nat) -> bool {
    forall|j: int|
        0 <= j < witness_seq().len() && 2 <= witness_seq()[j] <= n - 2
            ==> #[trigger] mr_witness_passes(n, witness_seq()[j] as nat)
}


/// The trial-division table of the primality tester: the odd primes below
/// 1024.
pub open spec fn small_factor_table() -> Seq<u64> {
    seq![
        3u64,
        5u64,
        7u64,
        11u64,
        13u64,
        17u64,
        19u64,
        23u64,
        29u64,
        31u64,
        37u64,
        41u64,
        43u64,
        47u64,
        53u64,
        59u64,
        61u64,
        67u64,
        71u64,
        73u64,
        79u64,
        83u64,
        89u64,
        97u64,
        101u64,
        103u64,
        107u64,
        109u64,
        113u64,
        127u64,
        131u64,
        137u64,
        139u64,
        149u64,
        151u64,
        157u64,
        163u64,
        167u64,
        173u64,
        179u64,
        181u64,
        191u64,
        193u64,
        197u64,
        199u64,
        211u64,
        223u64,
        227u64,
        229u64,
        233u64,
        239u64,
        241u64,
        251u64,
        257u64,
        263u64,
        269u64,
        271u64,
        277u64,
        281u64,
        283u64,
        293u64,
        307u64,
        311u64,
        313u64,
        317u64,
        331u64,
        337u64,
        347u64,
        349u64,
        353u64,
        359u64,
        367u64,
        373u64,
        379u64,
        383u64,
        389u64,
        397u64,
        401u64,
        409u64,
        419u64,
        421u64,
        431u64,
        433u64,
        439u64,
        443u64,
        449u64,
        457u64,
        461u64,
        463u64,
        467u64,
        479u64,
        487u64,
        491u64,
        499u64,
        503u64,
        509u64,
        521u64,
        523u64,
        541u64,
        547u64,
        557u64,
        563u64,
        569u64,
        571u64,
        577u64,
        587u64,
        593u64,
        599u64,
        601u64,
        607u64,
        613u64,
        617u64,
        619u64,
        631u64,
        641u64,
        643u64,
        647u64,
        653u64,
        659u64,
        661u64,
        673u64,
        677u64,
        683u64,
        691u64,
        701u64,
        709u64,
        719u64,
        727u64,
        733u64,
        739u64,
        743u64,
        751u64,
        757u64,
        761u64,
        769u64,
        773u64,
        787u64,
        797u64,
        809u64,
        811u64,
        821u64,
        823u64,
        827u64,
        829u64,
        839u64,
        853u64,
        857u64,
        859u64,
        863u64,
        877u64,
        881u64,
        883u64,
        887u64,
        907u64,
        911u64,
        919u64,
        929u64,
        937u64,
        941u64,
        947u64,
        953u64,
        967u64,
        971u64,
        977u64,
        983u64,
        991u64,
        997u64,
        1009u64,
        1013u64,
        1019u64,
        1021u64,
    ]
}

/// `v` is divisible by no table prime below it.
pub open spec fn no_small_table_factor(v: nat) -> bool {
    forall|t: int|
        0 <= t < small_factor_table().len() && 2 <= #[trigger] small_factor_table()[t]
            && (small_factor_table()[t] as nat) < v ==> v % (small_factor_table()[t] as nat) != 0
}

/// Trial division by the fixed table of small odd primes. A hit exhibits a
/// nontrivial divisor; a miss clears the whole table.
fn has_small_odd_factor(n: &BigUint) -> (r: bool)
    ensures
        r ==> exists|p: nat| 2 <= p < big_val(*n) && #[trigger] (big_val(*n) % p) == 0,
        !r ==> no_small_table_factor(big_val(*n)),
{
    let zero = big_from_u64(0);
    let table: Vec<u64> = vec![
        3u64,
        5u64,
        7u64,
        11u64,
        13u64,
        17u64,
        19u64,
        23u64,
        29u64,
        31u64,
        37u64,
        41u64,
        43u64,
        47u64,
        53u64,
        59u64,
        61u64,
        67u64,
        71u64,
        73u64,
        79u64,
        83u64,
        89u64,
        97u64,
        101u64,
        103u64,
        107u64,
        109u64,
        113u64,
        127u64,
        131u64,
        137u64,
        139u64,
        149u64,
        151u64,
        157u64,
        163u64,
        167u64,
        173u64,
        179u64,
        181u64,
        191u64,
        193u64,
        197u64,
        199u64,
        211u64,
        223u64,
        227u64,
        229u64,
        233u64,
        239u64,
        241u64,
        251u64,
        257u64,
        263u64,
        269u64,
        271u64,
        277u64,
        281u64,
        283u64,
        293u64,
        307u64,
        311u64,
        313u64,
        317u64,
        331u64,
        337u64,
        347u64,
        349u64,
        353u64,
        359u64,
        367u64,
        373u64,
        379u64,
        383u64,
        389u64,
        397u64,
        401u64,
        409u64,
        419u64,
        421u64,
        431u64,
        433u64,
        439u64,
        443u64,
        449u64,
        457u64,
        461u64,
        463u64,
        467u64,
        479u64,
        487u64,
        491u64,
        499u64,
        503u64,
        509u64,
        521u64,
        523u64,
        541u64,
        547u64,
        557u64,
        563u64,
        569u64,
        571u64,
        577u64,
        587u64,
        593u64,
        599u64,
        601u64,
        607u64,
        613u64,
        617u64,
        619u64,
        631u64,
        641u64,
        643u64,
        647u64,
        653u64,
        659u64,
        661u64,
        673u64,
        677u64,
        683u64,
        691u64,
        701u64,
        709u64,
        719u64,
        727u64,
        733u64,
        739u64,
        743u64,
        751u64,
        757u64,
        761u64,
        769u64,
        773u64,
        787u64,
        797u64,
        809u64,
        811u64,
        821u64,
        823u64,
        827u64,
        829u64,
        839u64,
        853u64,
        857u64,
        859u64,
        863u64,
        877u64,
        881u64,
        883u64,
        887u64,
        907u64,
        911u64,
        919u64,
        929u64,
        937u64,
        941u64,
        947u64,
        953u64,
        967u64,
        971u64,
        977u64,
        983u64,
        991u64,
        997u64,
        1009u64,
        1013u64,
        1019u64,
        1021u64,
    ];
    proof {
        assert(table@ =~= small_factor_table());
    }
    let mut i: usize = 0;
    while i < table.len()
        invariant
            big_val(zero) == 0,
            table@ == small_factor_table(),
            i <= table@.len(),
            forall|t: int|
                0 <= t < i ==> (2 <= #[trigger] table@[t] && (table@[t] as nat) < big_val(*n)
                    ==> big_val(*n) % (table@[t] as nat) != 0),
        decreases table@.len() - i,
    {
        let p = table[i];
        if p >= 2 {
            let pb = big_from_u64(p);
            if big_lt(&pb, n) {
                let rem = big_rem(n, &pb);
                if big_eq(&rem, &zero) {
                    proof {
                        assert(2 <= p as nat && (p as nat) < big_val(*n) && big_val(*n) % (
                        p as nat) == 0);
                    }
                    return true;
                }
            }
        }
        i = i + 1;
    }
    false
}

/// Every positive number is a power of two times its odd part.
proof fn lemma_odd_part_decompose(m: nat)
    requires
        m > 0,
    ensures
        odd_part(m) % 2 == 1,
        odd_part(m) >= 1,
        exists|s: nat| m == #[trigger] pow2(s) * odd_part(m),
    decreases m,
{
    if m % 2 == 1 {
        assert(pow2(0) == 1) by {
            vstd::arithmetic::power2::lemma2_to64();
        }
        assert(m == pow2(0) * odd_part(m)) by (nonlinear_arith)
            requires
                pow2(0) == 1,
                odd_part(m) == m,
        ;
    } else {
        lemma_odd_part_decompose(m / 2);
        let s = choose|s: nat| m / 2 == #[trigger] pow2(s) * odd_part(m / 2);
        vstd::arithmetic::power2::lemma_pow2_unfold(s + 1);
        assert(m == pow2(s + 1) * odd_part(m)) by (nonlinear_arith)
            requires
                m / 2 == pow2(s) * odd_part(m),
                m == 2 * (m / 2),
                pow2(s + 1) == 2 * pow2(s),
        ;
    }
}

/// Runs one Miller-Rabin round: whether witness `a` is consistent with the
/// odd modulus `n` being prime.
pub fn miller_rabin_witness(n: &BigUint, a: &BigUint) -> (r: bool)
    requires
        big_val(*n) >= 3,
        big_val(*n) % 2 == 1,
    ensures
        r == mr_witness_passes(big_val(*n), big_val(*a)),
{
    let ghost nv = big_val(*n);
    let ghost av = big_val(*a);

    let one = big_from_u64(1);
    let n_minus_one = big_sub(n, &one);
    let half = big_shr1(&n_minus_one);

    // Strip the factors of two of n - 1 to find its odd part.
    let mut d = big_clone(&n_minus_one);
    while !big_is_odd(&d)
        invariant
            big_val(d) >= 1,
            odd_part((nv - 1) as nat) == odd_part(big_val(d)),
            nv == big_val(*n),
            nv >= 3,
        decreases big_val(d),
    {
        d = big_shr1(&d);
    }
    let ghost dv = big_val(d);
    assert(dv == odd_part((nv - 1) as nat));

    proof {
        lemma_odd_part_decompose((nv - 1) as nat);
    }
    let ghost s = choose|s: nat| (nv - 1) as nat == #[trigger] pow2(s) * dv;
    proof {
        if s == 0 {
            assert(pow2(0) == 1) by {
                vstd::arithmetic::power2::lemma2_to64();
            }
            assert((nv - 1) as nat == dv) by (nonlinear_arith)
                requires
                    (nv - 1) as nat == pow2(0) * dv,
                    pow2(0) == 1,
            ;
        }
        assert(s >= 1);
        vstd::arithmetic::power2::lemma_pow2_unfold(s);
        assert((nv - 1) as nat == 2 * (pow2((s - 1) as nat) * dv)) by (nonlinear_arith)
            requires
                (nv - 1) as nat == pow2(s) * dv,
                pow2(s) == 2 * pow2((s - 1) as nat),
        ;
        assert(big_val(half) == pow2((s - 1) as nat) * dv);
    }

    let mut x = big_modpow_accel(a, &d, n);
    if big_eq(&x, &one) {
        return true;
    }

    let mut e = big_clone(&d);
    let ghost mut i: nat = 0;
    proof {
        vstd::arithmetic::power::lemma_pow0(2);
        assert(pow_nat(2, 0) * dv == dv) by (nonlinear_arith)
            requires
                pow_nat(2, 0) == 1,
        ;
        vstd::arithmetic::power2::lemma_pow2_pos((s - 1) as nat);
        assert(dv <= pow2((s - 1) as nat) * dv) by (nonlinear_arith)
            requires
                pow2((s - 1) as nat) >= 1,
        ;
    }
    loop
        invariant
            nv == big_val(*n),
            av == big_val(*a),
            nv >= 3,
            nv % 2 == 1,
            big_val(one) == 1,
            big_val(n_minus_one) == nv - 1,
            big_val(half) == pow2((s - 1) as nat) * dv,
            (nv - 1) as nat == 2 * big_val(half),
            s >= 1,
            dv == odd_part((nv - 1) as nat),
            dv >= 1,
            big_val(e) == pow_nat(2, i) * dv,
            big_val(e) <= big_val(half),
            big_val(x) == pow_nat(av, big_val(e)) % nv,
            pow_nat(av, dv) % nv != 1,
            forall|j: nat|
                j < i ==> (#[trigger] pow_nat(av, pow_nat(2, j) * dv)) % nv != nv - 1,
        decreases big_val(half) - big_val(e),
    {
        if big_eq(&x, &n_minus_one) {
            proof {
                assert(pow_nat(2, i) * dv <= (nv - 1) / 2);
                assert((pow_nat(av, pow_nat(2, i) * dv)) % nv == (nv - 1) as nat);
            }
            return true;
        }
        if big_eq(&e, &half) {
            proof {
                assert forall|j: nat|
                    pow_nat(2, j) * dv <= (nv - 1) / 2 implies (#[trigger] pow_nat(
                    av,
                    pow_nat(2, j) * dv,
                )) % nv != nv - 1 by {
                    if j >= i {
                        vstd::arithmetic::power::lemma_pow_positive(2, i);
                        vstd::arithmetic::power::lemma_pow_positive(2, j);
                        vstd::arithmetic::power::lemma_pow_increases(2, i, j);
                        assert(pow_nat(2, i) * dv <= pow_nat(2, j) * dv) by (nonlinear_arith)
                            requires
                                pow_nat(2, i) <= pow_nat(2, j),
                                dv >= 1,
                        ;
                        assert(pow_nat(2, j) * dv == big_val(e));
                    }
                }
            }
            return false;
        }

        // e is strictly below half, so doubling stays within range.
        proof {
            let p_i = pow_nat(2, i);
            let p_top = pow2((s - 1) as nat);
            vstd::arithmetic::power::lemma_pow_positive(2, i);
            vstd::arithmetic::power::lemma_pow_positive(2, i + 1);
            vstd::arithmetic::power::lemma_pow_positive(2, (s - 1) as nat);
            assert(p_i < p_top) by (nonlinear_arith)
                requires
                    p_i * dv < p_top * dv,
                    dv >= 1,
            ;
            vstd::arithmetic::power2::lemma_pow2((s - 1) as nat);
            vstd::arithmetic::power::lemma_pow_strictly_increases_converse(2, i, (s - 1) as nat);
            assert(i + 1 <= s - 1);
            vstd::arithmetic::power::lemma_pow_increases(2, i + 1, (s - 1) as nat);
            assert(pow(2, (i + 1) as nat) == 2 * pow(2, i)) by {
                vstd::arithmetic::power::lemma_pow_adds(2, 1, i);
                vstd::arithmetic::power::lemma_pow1(2);
            }
            assert(pow_nat(2, i + 1) * dv <= p_top * dv) by (nonlinear_arith)
                requires
                    pow_nat(2, i + 1) <= p_top,
                    dv >= 1,
            ;
            assert(pow_nat(2, i + 1) * dv == 2 * (pow_nat(2, i) * dv)) by (nonlinear_arith)
                requires
                    pow_nat(2, i + 1) == 2 * pow_nat(2, i),
            ;
            // The squared residue carries the doubled exponent.
            let ev = big_val(e);
            assert(ev >= 1) by (nonlinear_arith)
                requires
                    ev == pow_nat(2, i) * dv,
                    pow_nat(2, i) > 0,
                    dv >= 1,
            ;
            let p = pow(av as int, ev);
            assert(p >= 0) by {
                if av > 0 {
                    vstd::arithmetic::power::lemma_pow_positive(av as int, ev);
                } else {
                    vstd::arithmetic::power::lemma0_pow(ev);
                }
            }
            vstd::arithmetic::power::lemma_pow_adds(av as int, ev, ev);
            vstd::arithmetic::div_mod::lemma_mul_mod_noop(p, p, nv as int);
            assert(pow_nat(av, ev + ev) % nv == (big_val(x) * big_val(x)) % nv);
        }
        let x_sq = big_mul(&x, &x);
        x = big_rem(&x_sq, n);
        e = big_add(&e, &e);
        proof {
            i = i + 1;
        }
    }
}

/// Whether `n` is prime as far as Miller-Rabin can tell. Below the
/// deterministic threshold the verdict is exactly the fixed witness set's;
/// above it, a fixed number of random witnesses is consulted, so a `true`
/// verdict is probabilistic, while a `false` verdict always exhibits a
/// failing witness.
pub fn is_probable_prime(n: &BigUint) -> (r: bool)
    ensures
        big_val(*n) < 2 ==> r == false,
        big_val(*n) == 2 ==> r == true,
        big_val(*n) > 2 && big_val(*n) % 2 == 0 ==> r == false,
        r ==> big_val(*n) == 2 || (big_val(*n) >= 3 && big_val(*n) % 2 == 1),
        big_val(*n) >= 3 && big_val(*n) % 2 == 1 && big_val(*n) < DETERMINISTIC_THRESHOLD ==> r
            == passes_deterministic_witnesses(big_val(*n)),
        big_val(*n) >= DETERMINISTIC_THRESHOLD && big_val(*n) % 2 == 1 && r
            ==> no_small_table_factor(big_val(*n)),
        big_val(*n) >= DETERMINISTIC_THRESHOLD && big_val(*n) % 2 == 1 && r ==> exists|ws: Seq<nat>|
            (#[trigger] ws.len()) == RANDOM_WITNESS_ROUNDS && forall|k: int|
                0 <= k < ws.len() ==> 2 <= #[trigger] ws[k] <= big_val(*n) - 2
                    && mr_witness_passes(big_val(*n), ws[k]),
        big_val(*n) >= 3 && big_val(*n) % 2 == 1 && !r ==> (exists|w: nat|
            2 <= w <= big_val(*n) - 2 && !(#[trigger] mr_witness_passes(big_val(*n), w)))
            || (exists|p: nat| 2 <= p < big_val(*n) && #[trigger] (big_val(*n) % p) == 0),
{
    let ghost nv = big_val(*n);
    let one = big_from_u64(1);
    let two = big_from_u64(2);
    if big_lt(n, &two) {
        return false;
    }
    if big_eq(n, &two) {
        return true;
    }
    if !big_is_odd(n) {
        return false;
    }

    let n_minus_one = big_sub(n, &one);
    let threshold = big_from_u64(DETERMINISTIC_THRESHOLD);
    if big_lt(n, &threshold) {
        let witnesses = miller_rabin_witnesses();
        let mut j: usize = 0;
        while j < witnesses.len()
            invariant
                nv == big_val(*n),
                nv >= 3,
                nv % 2 == 1,
                big_val(n_minus_one) == nv - 1,
                witnesses@ == witness_seq(),
                j <= witnesses@.len(),
                forall|t: int|
                    0 <= t < j && 2 <= witness_seq()[t] <= nv - 2 ==> #[trigger] mr_witness_passes(
                        nv,
                        witness_seq()[t] as nat,
                    ),
            decreases witnesses@.len() - j,
        {
            let w = big_from_u64(witnesses[j]);
            if big_lt(&w, &n_minus_one) {
                if !miller_rabin_witness(n, &w) {
                    proof {
                        assert(2 <= big_val(w) <= nv - 2);
                        assert(!mr_witness_passes(nv, big_val(w)));
                    }
                    return false;
                }
            }
            j = j + 1;
        }
        true
    } else {
        if has_small_odd_factor(n) {
            return false;
        }
        let three = big_from_u64(3);
        let span = big_sub(n, &three);
        let ghost mut passed: Seq<nat> = Seq::empty();
        let mut round: u32 = 0;
        while round < RANDOM_WITNESS_ROUNDS
            invariant
                nv == big_val(*n),
                nv >= 3,
                nv % 2 == 1,
                nv >= DETERMINISTIC_THRESHOLD,
                big_val(span) == nv - 3,
                big_val(two) == 2,
                round <= RANDOM_WITNESS_ROUNDS,
                no_small_table_factor(nv),
                passed.len() == round,
                forall|k: int|
                    0 <= k < passed.len() ==> 2 <= #[trigger] passed[k] <= nv - 2
                        && mr_witness_passes(nv, passed[k]),
            decreases RANDOM_WITNESS_ROUNDS - round,
        {
            let raw = generate_entropy(256);
            let reduced = big_rem(&raw, &span);
            let w = big_add(&reduced, &two);
            if !miller_rabin_witness(n, &w) {
                proof {
                    assert(2 <= big_val(w) <= nv - 2);
                    assert(!mr_witness_passes(nv, big_val(w)));
                }
                return false;
            }
            proof {
                passed = passed.push(big_val(w));
            }
            round = round + 1;
        }
        proof {
            assert(passed.len() == RANDOM_WITNESS_ROUNDS);
        }
        true
    }
}

} // verus!
