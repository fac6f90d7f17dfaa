//! Cuckatoo cycle solver: keyed edge generation with SipHash-2-4, lean
//! bitmap trimming, and a 42-cycle search over the surviving edges.

use vstd::prelude::*;

pub mod types;
pub mod constants;
pub mod bitmap;
pub mod sip;
pub mod blake2b;
pub mod exact_siphash;
pub mod siphash;
pub mod hashing;
pub mod bitmap_trimming;
pub mod exact_trimming;
pub mod trimming;
pub mod hash_cycle_finder;
pub mod cpp_cycle_finder;
pub mod verification;
pub mod solver;

verus! {

/// Main error type for Cuckatoo operations.
#[derive(Debug, Clone)]
pub enum CuckatooError {
    InvalidEdgeBits(u32),
    HashingError(String),
    TrimmingError(String),
    VerificationError(String),
    MemoryError(String),
    InternalError(String),
}

} // verus!
