//! Result types of a generation request, and the error taxonomy.

use vstd::prelude::*;

verus! {

/// Descriptive statistics over a generated prime set.
#[derive(Debug)]
pub struct PrimeProperties {
    pub gaps: Vec<String>,
    pub product: String,
    pub bit_lengths: Vec<u32>,
    pub relationships: Vec<String>,
    pub strength: String,
}

/// Metadata echoed back with a generation response.
#[derive(Debug)]
pub struct GenerationMetadata {
    pub attempts: u32,
    pub generation_time: u32,
    pub strategy: String,
}

/// The full response to a generation request: the primes as decimal strings,
/// their properties, and the request metadata.
#[derive(Debug)]
pub struct PrimeSetResult {
    pub primes: Vec<String>,
    pub properties: PrimeProperties,
    pub metadata: GenerationMetadata,
}

/// Structured failures of a generation request. A missing modular inverse is
/// not an error and is reported as an absent value instead.
#[derive(Clone, Copy, Debug, PartialEq, Eq, Structural)]
pub enum GenError {
    InvalidBitLength,
    InvalidCount,
    UnknownStrategy,
    StrategyCountMismatch,
    AttemptBudgetExhausted,
}

} // verus!
