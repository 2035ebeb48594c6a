//! Big-integer number-theory toolkit for searching cryptographically usable
//! primes: entropy sampling under exact bit-length constraints, a wheel-sieve
//! candidate generator, binary-GCD and extended-Euclidean primitives, modular
//! arithmetic, Miller-Rabin primality testing, and the orchestration that
//! combines them into a strong/multi-prime generator.

pub mod arith;
pub mod attempts;
pub mod big_int;
pub mod bignum;
pub mod entropy;
pub mod gcd;
pub mod modular;
pub mod generators;
pub mod primality;
pub mod properties;
pub mod request;
pub mod types;
pub mod wheel;
