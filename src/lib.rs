//! Noise- and degree-aware evaluation core for LWE-based homomorphic encryption.
use vstd::prelude::*;

pub mod core_crypto;
pub mod shortint;
pub mod boolean;

verus! {

} // verus!
