//! LWE, GLWE and GGSW samples, keyswitching, the programmable bootstrap, and the random
//! and byte-level material they rest on.
use vstd::prelude::*;

pub mod lwe;
pub mod random;
pub mod keyswitch;
pub mod glwe;
pub mod bootstrap;
pub mod compact;
pub mod encoding;
pub mod flatten;

verus! {

} // verus!
